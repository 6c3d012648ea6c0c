use vstd::prelude::*;

use crate::chars::p_lit;
use crate::chars::sp_lit;
use crate::descriptor::p_descriptor_body;
use crate::descriptor::sp_descriptor_body;
use crate::descriptor::spec_derived_address;
use crate::descriptor::DescModel;
use crate::descriptor::ExtendedDescriptor;
use crate::descriptor::ScriptType;
use crate::errors::Error;
use crate::network::spec_network_name;
use crate::network::Network;

verus! {

// ---------------------------------------------------------------------------
// The fixed tokens of the two configuration text forms: a compact single
// line, and a pretty two-space-indented form.
// ---------------------------------------------------------------------------

pub open spec fn ms_open(pretty: bool) -> Seq<char> {
    if pretty {
        seq!['{', '\n', ' ', ' ', '"', 'n', 'e', 't', 'w', 'o', 'r', 'k', '"', ':', ' ', '"']
    } else {
        seq!['{', '"', 'n', 'e', 't', 'w', 'o', 'r', 'k', '"', ':', '"']
    }
}

pub open spec fn cv_open(pretty: bool) -> Seq<char> {
    if pretty {
        seq!['{', '\n', ' ', ' ', '"', 'n', 'a', 'm', 'e', '"', ':', ' ', '"']
    } else {
        seq!['{', '"', 'n', 'a', 'm', 'e', '"', ':', '"']
    }
}

pub open spec fn cv_net(pretty: bool) -> Seq<char> {
    if pretty {
        seq!['"', ',', '\n', ' ', ' ', '"', 'n', 'e', 't', 'w', 'o', 'r', 'k', '"', ':', ' ', '"']
    } else {
        seq!['"', ',', '"', 'n', 'e', 't', 'w', 'o', 'r', 'k', '"', ':', '"']
    }
}

pub open spec fn mid_ext(pretty: bool) -> Seq<char> {
    if pretty {
        seq!['"', ',', '\n', ' ', ' ', '"', 'e', 'x', 't', 'e', 'r', 'n', 'a', 'l', '_', 'd', 'e', 's', 'c', 'r', 'i', 'p', 't', 'o', 'r', '"', ':', ' ', '"']
    } else {
        seq!['"', ',', '"', 'e', 'x', 't', 'e', 'r', 'n', 'a', 'l', '_', 'd', 'e', 's', 'c', 'r', 'i', 'p', 't', 'o', 'r', '"', ':', '"']
    }
}

pub open spec fn mid_int(pretty: bool) -> Seq<char> {
    if pretty {
        seq!['"', ',', '\n', ' ', ' ', '"', 'i', 'n', 't', 'e', 'r', 'n', 'a', 'l', '_', 'd', 'e', 's', 'c', 'r', 'i', 'p', 't', 'o', 'r', '"', ':', ' ', '"']
    } else {
        seq!['"', ',', '"', 'i', 'n', 't', 'e', 'r', 'n', 'a', 'l', '_', 'd', 'e', 's', 'c', 'r', 'i', 'p', 't', 'o', 'r', '"', ':', '"']
    }
}

pub open spec fn cv_ct(pretty: bool) -> Seq<char> {
    if pretty {
        seq!['"', ',', '\n', ' ', ' ', '"', 'c', 'l', 'i', 'e', 'n', 't', '_', 't', 'y', 'p', 'e', '"', ':', ' ', '"']
    } else {
        seq!['"', ',', '"', 'c', 'l', 'i', 'e', 'n', 't', '_', 't', 'y', 'p', 'e', '"', ':', '"']
    }
}

pub open spec fn close_lit(pretty: bool) -> Seq<char> {
    if pretty {
        seq!['"', '\n', '}']
    } else {
        seq!['"', '}']
    }
}

fn lit_ms_open(pretty: bool) -> (r: &'static str)
    ensures
        r@ == ms_open(pretty),
{
    if pretty {
        let l = "{\n  \"network\": \"";
        proof {
            reveal_strlit("{\n  \"network\": \"");
            assert(l@ =~= ms_open(true));
        }
        l
    } else {
        let l = "{\"network\":\"";
        proof {
            reveal_strlit("{\"network\":\"");
            assert(l@ =~= ms_open(false));
        }
        l
    }
}

fn lit_cv_open(pretty: bool) -> (r: &'static str)
    ensures
        r@ == cv_open(pretty),
{
    if pretty {
        let l = "{\n  \"name\": \"";
        proof {
            reveal_strlit("{\n  \"name\": \"");
            assert(l@ =~= cv_open(true));
        }
        l
    } else {
        let l = "{\"name\":\"";
        proof {
            reveal_strlit("{\"name\":\"");
            assert(l@ =~= cv_open(false));
        }
        l
    }
}

fn lit_cv_net(pretty: bool) -> (r: &'static str)
    ensures
        r@ == cv_net(pretty),
{
    if pretty {
        let l = "\",\n  \"network\": \"";
        proof {
            reveal_strlit("\",\n  \"network\": \"");
            assert(l@ =~= cv_net(true));
        }
        l
    } else {
        let l = "\",\"network\":\"";
        proof {
            reveal_strlit("\",\"network\":\"");
            assert(l@ =~= cv_net(false));
        }
        l
    }
}

fn lit_mid_ext(pretty: bool) -> (r: &'static str)
    ensures
        r@ == mid_ext(pretty),
{
    if pretty {
        let l = "\",\n  \"external_descriptor\": \"";
        proof {
            reveal_strlit("\",\n  \"external_descriptor\": \"");
            assert(l@ =~= mid_ext(true));
        }
        l
    } else {
        let l = "\",\"external_descriptor\":\"";
        proof {
            reveal_strlit("\",\"external_descriptor\":\"");
            assert(l@ =~= mid_ext(false));
        }
        l
    }
}

fn lit_mid_int(pretty: bool) -> (r: &'static str)
    ensures
        r@ == mid_int(pretty),
{
    if pretty {
        let l = "\",\n  \"internal_descriptor\": \"";
        proof {
            reveal_strlit("\",\n  \"internal_descriptor\": \"");
            assert(l@ =~= mid_int(true));
        }
        l
    } else {
        let l = "\",\"internal_descriptor\":\"";
        proof {
            reveal_strlit("\",\"internal_descriptor\":\"");
            assert(l@ =~= mid_int(false));
        }
        l
    }
}

fn lit_cv_ct(pretty: bool) -> (r: &'static str)
    ensures
        r@ == cv_ct(pretty),
{
    if pretty {
        let l = "\",\n  \"client_type\": \"";
        proof {
            reveal_strlit("\",\n  \"client_type\": \"");
            assert(l@ =~= cv_ct(true));
        }
        l
    } else {
        let l = "\",\"client_type\":\"";
        proof {
            reveal_strlit("\",\"client_type\":\"");
            assert(l@ =~= cv_ct(false));
        }
        l
    }
}

fn lit_close_lit(pretty: bool) -> (r: &'static str)
    ensures
        r@ == close_lit(pretty),
{
    if pretty {
        let l = "\"\n}";
        proof {
            reveal_strlit("\"\n}");
            assert(l@ =~= close_lit(true));
        }
        l
    } else {
        let l = "\"}";
        proof {
            reveal_strlit("\"}");
            assert(l@ =~= close_lit(false));
        }
        l
    }
}

/// The escaped form of one character of a quoted string: the double quote
/// and the backslash are preceded by a backslash, every other character
/// stands as itself.
pub open spec fn esc_char(c: char) -> Seq<char> {
    if c == '"' || c == '\\' {
        seq!['\\', c]
    } else {
        seq![c]
    }
}

/// The escaped text of a quoted string.
pub open spec fn esc_render(t: Seq<char>) -> Seq<char>
    decreases t.len(),
{
    if t.len() == 0 {
        Seq::empty()
    } else {
        esc_char(t[0]) + esc_render(t.drop_first())
    }
}

/// A quoted string at position `i`: the characters up to the first
/// unescaped `"` (or the end of the text), with `\"` and `\\` read as
/// escapes. A backslash followed by anything else is malformed.
pub open spec fn sp_quoted(s: Seq<char>, i: int) -> Option<(Seq<char>, int)>
    decreases s.len() - i,
{
    if !(0 <= i < s.len()) {
        Some((Seq::empty(), i))
    } else if s[i] == '"' {
        Some((Seq::empty(), i))
    } else if s[i] == '\\' {
        if i + 1 < s.len() && (s[i + 1] == '"' || s[i + 1] == '\\') {
            match sp_quoted(s, i + 2) {
                None => None,
                Some((t, e)) => Some((seq![s[i + 1]] + t, e)),
            }
        } else {
            None
        }
    } else {
        match sp_quoted(s, i + 1) {
            None => None,
            Some((t, e)) => Some((seq![s[i]] + t, e)),
        }
    }
}

fn p_quoted(s: &str, i: usize) -> (r: Option<(String, usize)>)
    requires
        i <= s@.len(),
    ensures
        match r {
            Some((t, j)) => {
                &&& sp_quoted(s@, i as int) == Some((t@, j as int))
                &&& i <= j <= s@.len()
            },
            None => sp_quoted(s@, i as int) is None,
        },
    decreases s@.len() - i,
{
    let len = s.unicode_len();
    if i >= len {
        return Some((String::new(), i));
    }
    let c = s.get_char(i);
    if c == '"' {
        Some((String::new(), i))
    } else if c == '\\' {
        if len - i > 1 && (s.get_char(i + 1) == '"' || s.get_char(i + 1) == '\\') {
            match p_quoted(s, i + 2) {
                None => None,
                Some((t, e)) => {
                    let mut out = String::new();
                    out.push(s.get_char(i + 1));
                    out.append(t.as_str());
                    proof {
                        assert(out@ =~= seq![s@[i as int + 1]] + t@);
                    }
                    Some((out, e))
                },
            }
        } else {
            None
        }
    } else {
        match p_quoted(s, i + 1) {
            None => None,
            Some((t, e)) => {
                let mut out = String::new();
                out.push(c);
                out.append(t.as_str());
                proof {
                    assert(out@ =~= seq![s@[i as int]] + t@);
                }
                Some((out, e))
            },
        }
    }
}

/// Appends the escaped form of `t`.
fn push_escaped(out: &mut String, t: &str)
    ensures
        final(out)@ == old(out)@ + esc_render(t@),
{
    let len = t.unicode_len();
    proof {
        assert(t@.skip(0) =~= t@);
    }
    let mut k: usize = 0;
    while k < len
        invariant
            0 <= k <= len,
            len == t@.len(),
            out@ + esc_render(t@.skip(k as int)) == old(out)@ + esc_render(t@),
        decreases len - k,
    {
        let c = t.get_char(k);
        proof {
            assert(t@.skip(k as int)[0] == t@[k as int]);
            assert(t@.skip(k as int).drop_first() =~= t@.skip(k as int + 1));
        }
        if c == '"' || c == '\\' {
            out.push('\\');
            out.push(c);
        } else {
            out.push(c);
        }
        proof {
            assert(out@ + esc_render(t@.skip(k as int + 1)) =~= old(out)@ + esc_render(t@));
        }
        k = k + 1;
    }
    proof {
        assert(t@.skip(len as int) =~= Seq::<char>::empty());
        assert(out@ =~= old(out)@ + esc_render(t@));
    }
}

/// A network name at position `i`.
pub open spec fn sp_network_at(s: Seq<char>, i: int) -> Option<(Network, int)> {
    if sp_lit(s, i, spec_network_name(Network::Mainnet)) is Some {
        Some((Network::Mainnet, i + spec_network_name(Network::Mainnet).len() as int))
    } else if sp_lit(s, i, spec_network_name(Network::Testnet)) is Some {
        Some((Network::Testnet, i + spec_network_name(Network::Testnet).len() as int))
    } else if sp_lit(s, i, spec_network_name(Network::Signet)) is Some {
        Some((Network::Signet, i + spec_network_name(Network::Signet).len() as int))
    } else if sp_lit(s, i, spec_network_name(Network::Regtest)) is Some {
        Some((Network::Regtest, i + spec_network_name(Network::Regtest).len() as int))
    } else {
        None
    }
}

fn p_network_at(s: &str, i: usize) -> (r: Option<(Network, usize)>)
    requires
        i <= s@.len(),
    ensures
        match r {
            Some((n, j)) => {
                &&& sp_network_at(s@, i as int) == Some((n, j as int))
                &&& i < j <= s@.len()
                &&& s@.subrange(i as int, j as int) == spec_network_name(n)
            },
            None => sp_network_at(s@, i as int) is None,
        },
{
    proof {
        reveal_strlit("bitcoin");
        reveal_strlit("testnet");
        reveal_strlit("signet");
        reveal_strlit("regtest");
        assert("bitcoin"@ =~= spec_network_name(Network::Mainnet));
        assert("testnet"@ =~= spec_network_name(Network::Testnet));
        assert("signet"@ =~= spec_network_name(Network::Signet));
        assert("regtest"@ =~= spec_network_name(Network::Regtest));
    }
    if let Some(j) = p_lit(s, i, "bitcoin") {
        Some((Network::Mainnet, j))
    } else if let Some(j) = p_lit(s, i, "testnet") {
        Some((Network::Testnet, j))
    } else if let Some(j) = p_lit(s, i, "signet") {
        Some((Network::Signet, j))
    } else if let Some(j) = p_lit(s, i, "regtest") {
        Some((Network::Regtest, j))
    } else {
        None
    }
}

// ---------------------------------------------------------------------------
// The minimal wallet configuration: a network and the two descriptors.
// ---------------------------------------------------------------------------

/// A minimal wallet configuration: the network and the external/internal
/// descriptor pair.
pub struct MultisigWalletConfig {
    network: Network,
    external: ExtendedDescriptor,
    internal: ExtendedDescriptor,
}

pub ghost struct MsConfModel {
    pub network: Network,
    pub external: DescModel,
    pub internal: DescModel,
}

impl View for MultisigWalletConfig {
    type V = MsConfModel;

    closed spec fn view(&self) -> MsConfModel {
        MsConfModel { network: self.network, external: self.external@, internal: self.internal@ }
    }
}

impl MsConfModel {
    pub open spec fn wf(self) -> bool {
        &&& self.external.wf()
        &&& self.internal.wf()
        &&& self.external.matches_network(self.network)
        &&& self.internal.matches_network(self.network)
    }

    /// The canonical text of the configuration, in one of its two forms.
    pub open spec fn render(self, pretty: bool) -> Seq<char> {
        ms_open(pretty) + spec_network_name(self.network) + mid_ext(pretty)
            + self.external.render() + mid_int(pretty) + self.internal.render() + close_lit(
            pretty,
        )
    }
}

/// What `MultisigWalletConfig::from_str` accepts, before network-consistency
/// checks: the structure of the document in either form.
pub open spec fn sp_ms_config(s: Seq<char>) -> Option<MsConfModel> {
    let pretty = s.len() >= 2 && s[1] == '\n';
    match sp_lit(s, 0, ms_open(pretty)) {
        None => None,
        Some(i1) => match sp_network_at(s, i1) {
            None => None,
            Some((network, i2)) => match sp_lit(s, i2, mid_ext(pretty)) {
                None => None,
                Some(i3) => match sp_descriptor_body(s, i3) {
                    None => None,
                    Some((external, i4)) => match sp_lit(s, i4, mid_int(pretty)) {
                        None => None,
                        Some(i5) => match sp_descriptor_body(s, i5) {
                            None => None,
                            Some((internal, i6)) => match sp_lit(s, i6, close_lit(pretty)) {
                                None => None,
                                Some(i7) => {
                                    if i7 == s.len() {
                                        Some(MsConfModel { network, external, internal })
                                    } else {
                                        None
                                    }
                                },
                            },
                        },
                    },
                },
            },
        },
    }
}

/// Whether a failure to parse minimal-configuration text lies inside one of
/// its descriptor fields: every token before that field matches and the
/// descriptor grammar rejects the field. Any other failure is structural.
pub open spec fn ms_descriptor_fault(s: Seq<char>) -> bool {
    let pretty = s.len() >= 2 && s[1] == '\n';
    match sp_lit(s, 0, ms_open(pretty)) {
        None => false,
        Some(i1) => match sp_network_at(s, i1) {
            None => false,
            Some((network, i2)) => match sp_lit(s, i2, mid_ext(pretty)) {
                None => false,
                Some(i3) => match sp_descriptor_body(s, i3) {
                    None => true,
                    Some((external, i4)) => match sp_lit(s, i4, mid_int(pretty)) {
                        None => false,
                        Some(i5) => sp_descriptor_body(s, i5) is None,
                    },
                },
            },
        },
    }
}

impl MultisigWalletConfig {
    /// Parses configuration text in either the compact or the pretty form;
    /// every descriptor- and key-level validation applies, and a key whose
    /// network tag disagrees with the configured network is rejected.
    pub fn from_str(config: &str) -> (r: Result<MultisigWalletConfig, Error>)
        ensures
            match r {
                Ok(c) => {
                    &&& sp_ms_config(config@) == Some(c@)
                    &&& c@.wf()
                },
                Err(e) => match sp_ms_config(config@) {
                    None => {
                        &&& (e is DescriptorSyntax <==> ms_descriptor_fault(config@))
                        &&& (e is ConfigSyntax <==> !ms_descriptor_fault(config@))
                    },
                    Some(m) => {
                        &&& e is KeyNetworkMismatch
                        &&& !(m.external.matches_network(m.network)
                            && m.internal.matches_network(m.network))
                        &&& (e matches Error::KeyNetworkMismatch { index } ==> ({
                            let d = if !m.external.matches_network(m.network) {
                                m.external
                            } else {
                                m.internal
                            };
                            &&& index < d.keys.len()
                            &&& !d.keys[index as int].key.matches_network(m.network)
                        }))
                    },
                },
            },
    {
        let len = config.unicode_len();
        let pretty = len >= 2 && config.get_char(1) == '\n';
        let i1 = match p_lit(config, 0, lit_ms_open(pretty)) {
            Some(i1) => i1,
            None => {
                return Err(Error::ConfigSyntax { pos: 0 });
            },
        };
        let (network, i2) = match p_network_at(config, i1) {
            Some(v) => v,
            None => {
                return Err(Error::ConfigSyntax { pos: i1 });
            },
        };
        let i3 = match p_lit(config, i2, lit_mid_ext(pretty)) {
            Some(v) => v,
            None => {
                return Err(Error::ConfigSyntax { pos: i2 });
            },
        };
        let (external, i4) = match p_descriptor_body(config, i3) {
            Some(v) => v,
            None => {
                return Err(Error::DescriptorSyntax { pos: i3 });
            },
        };
        let i5 = match p_lit(config, i4, lit_mid_int(pretty)) {
            Some(v) => v,
            None => {
                return Err(Error::ConfigSyntax { pos: i4 });
            },
        };
        let (internal, i6) = match p_descriptor_body(config, i5) {
            Some(v) => v,
            None => {
                return Err(Error::DescriptorSyntax { pos: i5 });
            },
        };
        let i7 = match p_lit(config, i6, lit_close_lit(pretty)) {
            Some(v) => v,
            None => {
                return Err(Error::ConfigSyntax { pos: i6 });
            },
        };
        if i7 != len {
            return Err(Error::ConfigSyntax { pos: i7 });
        }
        if let Some(k) = external.first_network_mismatch(&network) {
            return Err(Error::KeyNetworkMismatch { index: k });
        }
        if let Some(k) = internal.first_network_mismatch(&network) {
            return Err(Error::KeyNetworkMismatch { index: k });
        }
        Ok(MultisigWalletConfig { network, external, internal })
    }

    /// The compact single-line text of the configuration.
    pub fn to_string(&self) -> (r: String)
        requires
            self@.wf(),
        ensures
            r@ == self@.render(false),
    {
        let mut out = String::new();
        out.append(lit_ms_open(false));
        out.append(self.network.to_string().as_str());
        out.append(lit_mid_ext(false));
        out.append(self.external.to_text().as_str());
        out.append(lit_mid_int(false));
        out.append(self.internal.to_text().as_str());
        out.append(lit_close_lit(false));
        proof {
            assert(out@ =~= self@.render(false));
        }
        out
    }

    /// The indented multi-line text of the configuration.
    pub fn to_string_pretty(&self) -> (r: String)
        requires
            self@.wf(),
        ensures
            r@ == self@.render(true),
    {
        let mut out = String::new();
        out.append(lit_ms_open(true));
        out.append(self.network.to_string().as_str());
        out.append(lit_mid_ext(true));
        out.append(self.external.to_text().as_str());
        out.append(lit_mid_int(true));
        out.append(self.internal.to_text().as_str());
        out.append(lit_close_lit(true));
        proof {
            assert(out@ =~= self@.render(true));
        }
        out
    }

    /// The receiving-branch descriptor.
    pub fn external_descriptor(&self) -> (r: ExtendedDescriptor)
        requires
            self@.wf(),
        ensures
            r@ == self@.external,
            r@.wf(),
    {
        self.external.duplicate()
    }

    /// The change-branch descriptor.
    pub fn internal_descriptor(&self) -> (r: ExtendedDescriptor)
        requires
            self@.wf(),
        ensures
            r@ == self@.internal,
            r@.wf(),
    {
        self.internal.duplicate()
    }

    /// The receiving address at `index`.
    pub fn external_address(&self, index: u32) -> (r: Result<String, Error>)
        requires
            self@.wf(),
        ensures
            match r {
                Ok(a) => spec_derived_address(self@.external.render(), index, self@.network)
                    == Some(a@),
                Err(e) => e is Derivation && spec_derived_address(
                    self@.external.render(),
                    index,
                    self@.network,
                ) is None,
            },
    {
        self.external.get_address(index, self.network)
    }

    /// The change address at `index`.
    pub fn internal_address(&self, index: u32) -> (r: Result<String, Error>)
        requires
            self@.wf(),
        ensures
            match r {
                Ok(a) => spec_derived_address(self@.internal.render(), index, self@.network)
                    == Some(a@),
                Err(e) => e is Derivation && spec_derived_address(
                    self@.internal.render(),
                    index,
                    self@.network,
                ) is None,
            },
    {
        self.internal.get_address(index, self.network)
    }

    /// The configured network.
    pub fn network(&self) -> (r: Network)
        ensures
            r == self@.network,
    {
        self.network
    }
}

// ---------------------------------------------------------------------------
// The named wallet configuration.
// ---------------------------------------------------------------------------

/// The label describing a script template in a named configuration.
pub open spec fn spec_address_type(st: ScriptType) -> Seq<char> {
    match st {
        ScriptType::P2sh => seq!['P', '2', 'S', 'H'],
        ScriptType::P2wsh => seq!['P', '2', 'W', 'S', 'H'],
        ScriptType::P2shP2wsh => seq!['P', '2', 'S', 'H', '-', 'P', '2', 'W', 'S', 'H'],
    }
}

/// A named wallet configuration: the minimal configuration plus a display
/// name and a free-text client-type tag.
pub struct CaravanConfig {
    name: String,
    network: Network,
    external: ExtendedDescriptor,
    internal: ExtendedDescriptor,
    client_type: String,
}

pub ghost struct CaravanModel {
    pub name: Seq<char>,
    pub network: Network,
    pub external: DescModel,
    pub internal: DescModel,
    pub client_type: Seq<char>,
}

impl View for CaravanConfig {
    type V = CaravanModel;

    closed spec fn view(&self) -> CaravanModel {
        CaravanModel {
            name: self.name@,
            network: self.network,
            external: self.external@,
            internal: self.internal@,
            client_type: self.client_type@,
        }
    }
}

impl CaravanModel {
    pub open spec fn wf(self) -> bool {
        &&& self.external.wf()
        &&& self.internal.wf()
        &&& self.external.matches_network(self.network)
        &&& self.internal.matches_network(self.network)
    }

    /// The text up to and including the external descriptor.
    pub open spec fn render_front(self, pretty: bool) -> Seq<char> {
        cv_open(pretty) + esc_render(self.name) + cv_net(pretty) + spec_network_name(self.network) + mid_ext(
            pretty,
        ) + self.external.render()
    }

    /// The text from the internal-descriptor token to the closing brace.
    pub open spec fn render_back(self, pretty: bool) -> Seq<char> {
        mid_int(pretty) + self.internal.render() + cv_ct(pretty) + esc_render(self.client_type) + close_lit(
            pretty,
        )
    }

    /// The canonical text of the configuration, in one of its two forms.
    pub open spec fn render(self, pretty: bool) -> Seq<char> {
        self.render_front(pretty) + self.render_back(pretty)
    }
}

/// What `CaravanConfig::from_str` accepts, before network-consistency
/// checks.
pub open spec fn sp_cv_config(s: Seq<char>) -> Option<CaravanModel> {
    let pretty = s.len() >= 2 && s[1] == '\n';
    match sp_lit(s, 0, cv_open(pretty)) {
        None => None,
        Some(i1) => match sp_quoted(s, i1) {
            None => None,
            Some((name, i2)) => match sp_lit(s, i2, cv_net(pretty)) {
                None => None,
                Some(i3) => match sp_network_at(s, i3) {
                    None => None,
                    Some((network, i4)) => match sp_lit(s, i4, mid_ext(pretty)) {
                        None => None,
                        Some(i5) => match sp_descriptor_body(s, i5) {
                            None => None,
                            Some((external, i6)) => match sp_lit(s, i6, mid_int(pretty)) {
                                None => None,
                                Some(i7) => match sp_descriptor_body(s, i7) {
                                    None => None,
                                    Some((internal, i8)) => match sp_lit(s, i8, cv_ct(pretty)) {
                                        None => None,
                                        Some(i9) => match sp_quoted(s, i9) {
                                            None => None,
                                            Some((client_type, i10)) => match sp_lit(
                                                s,
                                                i10,
                                                close_lit(pretty),
                                            ) {
                                                None => None,
                                                Some(i11) => {
                                                    if i11 == s.len() {
                                                        Some(
                                                            CaravanModel {
                                                                name,
                                                                network,
                                                                external,
                                                                internal,
                                                                client_type,
                                                            },
                                                        )
                                                    } else {
                                                        None
                                                    }
                                                },
                                            },
                                        },
                                    },
                                },
                            },
                        },
                    },
                },
            },
        },
    }
}

/// Whether a failure to parse named-configuration text lies inside one of
/// its descriptor fields, as for the minimal form.
pub open spec fn cv_descriptor_fault(s: Seq<char>) -> bool {
    let pretty = s.len() >= 2 && s[1] == '\n';
    match sp_lit(s, 0, cv_open(pretty)) {
        None => false,
        Some(i1) => match sp_quoted(s, i1) {
            None => false,
            Some((name, i2)) => match sp_lit(s, i2, cv_net(pretty)) {
                None => false,
                Some(i3) => match sp_network_at(s, i3) {
                    None => false,
                    Some((network, i4)) => match sp_lit(s, i4, mid_ext(pretty)) {
                        None => false,
                        Some(i5) => match sp_descriptor_body(s, i5) {
                            None => true,
                            Some((external, i6)) => match sp_lit(s, i6, mid_int(pretty)) {
                                None => false,
                                Some(i7) => sp_descriptor_body(s, i7) is None,
                            },
                        },
                    },
                },
            },
        },
    }
}

impl CaravanConfig {
    /// Parses named-configuration text in either form, with the same
    /// validations as the minimal configuration.
    pub fn from_str(config: &str) -> (r: Result<CaravanConfig, Error>)
        ensures
            match r {
                Ok(c) => {
                    &&& sp_cv_config(config@) == Some(c@)
                    &&& c@.wf()
                },
                Err(e) => match sp_cv_config(config@) {
                    None => {
                        &&& (e is DescriptorSyntax <==> cv_descriptor_fault(config@))
                        &&& (e is ConfigSyntax <==> !cv_descriptor_fault(config@))
                    },
                    Some(m) => {
                        &&& e is KeyNetworkMismatch
                        &&& !(m.external.matches_network(m.network)
                            && m.internal.matches_network(m.network))
                        &&& (e matches Error::KeyNetworkMismatch { index } ==> ({
                            let d = if !m.external.matches_network(m.network) {
                                m.external
                            } else {
                                m.internal
                            };
                            &&& index < d.keys.len()
                            &&& !d.keys[index as int].key.matches_network(m.network)
                        }))
                    },
                },
            },
    {
        let len = config.unicode_len();
        let pretty = len >= 2 && config.get_char(1) == '\n';
        let i1 = match p_lit(config, 0, lit_cv_open(pretty)) {
            Some(v) => v,
            None => {
                return Err(Error::ConfigSyntax { pos: 0 });
            },
        };
        let (name, i2) = match p_quoted(config, i1) {
            Some(v) => v,
            None => {
                return Err(Error::ConfigSyntax { pos: i1 });
            },
        };
        let i3 = match p_lit(config, i2, lit_cv_net(pretty)) {
            Some(v) => v,
            None => {
                return Err(Error::ConfigSyntax { pos: i2 });
            },
        };
        let (network, i4) = match p_network_at(config, i3) {
            Some(v) => v,
            None => {
                return Err(Error::ConfigSyntax { pos: i3 });
            },
        };
        let i5 = match p_lit(config, i4, lit_mid_ext(pretty)) {
            Some(v) => v,
            None => {
                return Err(Error::ConfigSyntax { pos: i4 });
            },
        };
        let (external, i6) = match p_descriptor_body(config, i5) {
            Some(v) => v,
            None => {
                return Err(Error::DescriptorSyntax { pos: i5 });
            },
        };
        let i7 = match p_lit(config, i6, lit_mid_int(pretty)) {
            Some(v) => v,
            None => {
                return Err(Error::ConfigSyntax { pos: i6 });
            },
        };
        let (internal, i8) = match p_descriptor_body(config, i7) {
            Some(v) => v,
            None => {
                return Err(Error::DescriptorSyntax { pos: i7 });
            },
        };
        let i9 = match p_lit(config, i8, lit_cv_ct(pretty)) {
            Some(v) => v,
            None => {
                return Err(Error::ConfigSyntax { pos: i8 });
            },
        };
        let (client_type, i10) = match p_quoted(config, i9) {
            Some(v) => v,
            None => {
                return Err(Error::ConfigSyntax { pos: i9 });
            },
        };
        let i11 = match p_lit(config, i10, lit_close_lit(pretty)) {
            Some(v) => v,
            None => {
                return Err(Error::ConfigSyntax { pos: i10 });
            },
        };
        if i11 != len {
            return Err(Error::ConfigSyntax { pos: i11 });
        }
        if let Some(k) = external.first_network_mismatch(&network) {
            return Err(Error::KeyNetworkMismatch { index: k });
        }
        if let Some(k) = internal.first_network_mismatch(&network) {
            return Err(Error::KeyNetworkMismatch { index: k });
        }
        Ok(CaravanConfig { name, network, external, internal, client_type })
    }

    /// Builds a named configuration from its parts, validating that every
    /// key agrees with `network`. The name and client-type tag are free
    /// text: the canonical form escapes the double quote and the backslash,
    /// so any string round-trips.
    pub fn new(
        network: Network,
        external_descriptor: ExtendedDescriptor,
        internal_descriptor: ExtendedDescriptor,
        name: String,
        client_type: String,
    ) -> (r: Result<CaravanConfig, Error>)
        requires
            external_descriptor@.wf(),
            internal_descriptor@.wf(),
        ensures
            match r {
                Ok(c) => {
                    &&& external_descriptor@.matches_network(network)
                    &&& internal_descriptor@.matches_network(network)
                    &&& c@ == (CaravanModel {
                        name: name@,
                        network,
                        external: external_descriptor@,
                        internal: internal_descriptor@,
                        client_type: client_type@,
                    })
                    &&& c@.wf()
                },
                Err(e) => {
                    &&& !(external_descriptor@.matches_network(network)
                        && internal_descriptor@.matches_network(network))
                    &&& (e matches Error::KeyNetworkMismatch { index } && ({
                        let d = if !external_descriptor@.matches_network(network) {
                            external_descriptor@
                        } else {
                            internal_descriptor@
                        };
                        &&& index < d.keys.len()
                        &&& !d.keys[index as int].key.matches_network(network)
                    }))
                },
            },
    {
        if let Some(k) = external_descriptor.first_network_mismatch(&network) {
            return Err(Error::KeyNetworkMismatch { index: k });
        }
        if let Some(k) = internal_descriptor.first_network_mismatch(&network) {
            return Err(Error::KeyNetworkMismatch { index: k });
        }
        Ok(
            CaravanConfig {
                name,
                network,
                external: external_descriptor,
                internal: internal_descriptor,
                client_type,
            },
        )
    }

    /// The compact single-line text of the configuration.
    pub fn to_string(&self) -> (r: String)
        requires
            self@.wf(),
        ensures
            r@ == self@.render(false),
    {
        self.render_exec(false)
    }

    /// The indented multi-line text of the configuration.
    pub fn to_string_pretty(&self) -> (r: String)
        requires
            self@.wf(),
        ensures
            r@ == self@.render(true),
    {
        self.render_exec(true)
    }

    fn render_exec(&self, pretty: bool) -> (r: String)
        requires
            self@.wf(),
        ensures
            r@ == self@.render(pretty),
    {
        let mut out = String::new();
        out.append(lit_cv_open(pretty));
        push_escaped(&mut out, self.name.as_str());
        out.append(lit_cv_net(pretty));
        out.append(self.network.to_string().as_str());
        out.append(lit_mid_ext(pretty));
        out.append(self.external.to_text().as_str());
        out.append(lit_mid_int(pretty));
        out.append(self.internal.to_text().as_str());
        out.append(lit_cv_ct(pretty));
        push_escaped(&mut out, self.client_type.as_str());
        out.append(lit_close_lit(pretty));
        proof {
            assert(out@ =~= self@.render(pretty));
        }
        out
    }

    /// The display name.
    pub fn name(&self) -> (r: String)
        ensures
            r@ == self@.name,
    {
        self.name.clone()
    }

    /// The label of the wallet's script template.
    pub fn address_type(&self) -> (r: String)
        ensures
            r@ == spec_address_type(self@.external.script),
    {
        proof {
            reveal_strlit("P2SH");
            reveal_strlit("P2WSH");
            reveal_strlit("P2SH-P2WSH");
            assert("P2SH"@ =~= spec_address_type(ScriptType::P2sh));
            assert("P2WSH"@ =~= spec_address_type(ScriptType::P2wsh));
            assert("P2SH-P2WSH"@ =~= spec_address_type(ScriptType::P2shP2wsh));
        }
        match self.external.script {
            ScriptType::P2sh => String::from_str("P2SH"),
            ScriptType::P2wsh => String::from_str("P2WSH"),
            ScriptType::P2shP2wsh => String::from_str("P2SH-P2WSH"),
        }
    }

    /// The receiving-branch descriptor.
    pub fn external_descriptor(&self) -> (r: ExtendedDescriptor)
        requires
            self@.wf(),
        ensures
            r@ == self@.external,
            r@.wf(),
    {
        self.external.duplicate()
    }

    /// The change-branch descriptor.
    pub fn internal_descriptor(&self) -> (r: ExtendedDescriptor)
        requires
            self@.wf(),
        ensures
            r@ == self@.internal,
            r@.wf(),
    {
        self.internal.duplicate()
    }

    /// The receiving address at `index`.
    pub fn external_address(&self, index: u32) -> (r: Result<String, Error>)
        requires
            self@.wf(),
        ensures
            match r {
                Ok(a) => spec_derived_address(self@.external.render(), index, self@.network)
                    == Some(a@),
                Err(e) => e is Derivation && spec_derived_address(
                    self@.external.render(),
                    index,
                    self@.network,
                ) is None,
            },
    {
        self.external.get_address(index, self.network)
    }

    /// The change address at `index`.
    pub fn internal_address(&self, index: u32) -> (r: Result<String, Error>)
        requires
            self@.wf(),
        ensures
            match r {
                Ok(a) => spec_derived_address(self@.internal.render(), index, self@.network)
                    == Some(a@),
                Err(e) => e is Derivation && spec_derived_address(
                    self@.internal.render(),
                    index,
                    self@.network,
                ) is None,
            },
    {
        self.internal.get_address(index, self.network)
    }

    /// The configured network.
    pub fn network(&self) -> (r: Network)
        ensures
            r == self@.network,
    {
        self.network
    }
}

} // verus!
