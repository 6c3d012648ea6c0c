use vstd::prelude::*;

use crate::chars::dec_render;
use crate::chars::exec_is_b58;
use crate::chars::exec_is_hex;
use crate::chars::index_limit;
use crate::chars::is_b58;
use crate::chars::is_hex;
use crate::chars::lemma_dec_value_renders;
use crate::chars::lemma_run_end_of;
use crate::chars::lemma_run_end_props;
use crate::chars::p_dec;
use crate::chars::run_end;
use crate::chars::sp_dec;
use crate::errors::Error;
use crate::network::Network;

verus! {

// ---------------------------------------------------------------------------
// Derivation-path steps.
// ---------------------------------------------------------------------------

/// One step of a BIP-32 derivation path: an index below the hardened offset,
/// optionally marked hardened. Both hardened markers are accepted; the one
/// the text used (`'` or its `h` alias) is kept, so a parsed step renders
/// back to the characters it was read from.
#[derive(Clone, Copy, PartialEq, Eq, Structural, Debug)]
pub struct ChildStep {
    pub index: u32,
    pub hardened: bool,
    pub h_marker: bool,
}

impl ChildStep {
    pub open spec fn wf(self) -> bool {
        &&& self.index < index_limit()
        &&& (self.h_marker ==> self.hardened)
    }

    /// The marker this step was written with.
    pub open spec fn marker(self) -> char {
        if self.h_marker {
            'h'
        } else {
            '\''
        }
    }

    /// `n` for a normal step, `n'` or `nh` for a hardened one.
    pub open spec fn render(self) -> Seq<char> {
        if self.hardened {
            dec_render(self.index as int).push(self.marker())
        } else {
            dec_render(self.index as int)
        }
    }
}

/// The canonical text of the steps of a path from entry `n` on: each one a
/// `/` followed by the step.
pub open spec fn steps_render_from(path: Seq<ChildStep>, n: int) -> Seq<char>
    decreases path.len() - n,
{
    if n < 0 || n >= path.len() {
        Seq::empty()
    } else {
        seq!['/'] + path[n].render() + steps_render_from(path, n + 1)
    }
}

/// A `/`-separated run of steps ending before the first character that does
/// not open another step.
pub open spec fn sp_steps(s: Seq<char>, i: int) -> Option<(Seq<ChildStep>, int)>
    decreases s.len() - i,
    via sp_steps_decreases
{
    if 0 <= i < s.len() && s[i] == '/' {
        match sp_dec(s, i + 1) {
            None => None,
            Some((v, j)) => {
                let (hard, hm, j2) = if j < s.len() && s[j] == '\'' {
                    (true, false, j + 1)
                } else if j < s.len() && s[j] == 'h' {
                    (true, true, j + 1)
                } else {
                    (false, false, j)
                };
                match sp_steps(s, j2) {
                    None => None,
                    Some((rest, e)) => Some(
                        (seq![ChildStep { index: v, hardened: hard, h_marker: hm }] + rest, e),
                    ),
                }
            },
        }
    } else {
        Some((Seq::empty(), i))
    }
}

#[via_fn]
proof fn sp_steps_decreases(s: Seq<char>, i: int) {
    if 0 <= i < s.len() && s[i] == '/' {
        lemma_run_end_props(s, i + 1, |c: char| crate::chars::is_digit(c));
    }
}

pub fn p_steps(s: &str, i: usize) -> (r: Option<(Vec<ChildStep>, usize)>)
    requires
        i <= s@.len(),
    ensures
        match r {
            Some((v, j)) => {
                &&& sp_steps(s@, i as int) == Some((v@, j as int))
                &&& i <= j <= s@.len()
                &&& steps_render_from(v@, 0) == s@.subrange(i as int, j as int)
                &&& forall|k: int| 0 <= k < v@.len() ==> (#[trigger] v@[k]).wf()
            },
            None => sp_steps(s@, i as int) is None,
        },
    decreases s@.len() - i,
{
    let len = s.unicode_len();
    if i < len && s.get_char(i) == '/' {
        match p_dec(s, i + 1) {
            None => None,
            Some((v, j)) => {
                let (hard, hm, j2): (bool, bool, usize) = if j < len && s.get_char(j) == '\'' {
                    (true, false, j + 1)
                } else if j < len && s.get_char(j) == 'h' {
                    (true, true, j + 1)
                } else {
                    (false, false, j)
                };
                match p_steps(s, j2) {
                    None => None,
                    Some((rest, e)) => {
                        let ghost rest_v = rest@;
                        let mut out = rest;
                        let st = ChildStep { index: v, hardened: hard, h_marker: hm };
                        out.insert(0, st);
                        proof {
                            assert(out@ =~= seq![st] + rest_v);
                            assert(steps_tail(out@) =~= rest_v);
                            lemma_sp_dec_render(s@, i as int + 1);
                            assert(st.render() == s@.subrange(i as int + 1, j2 as int)) by {
                                if hard {
                                    assert(s@.subrange(i as int + 1, j2 as int) =~= s@.subrange(
                                        i as int + 1,
                                        j as int,
                                    ).push(s@[j as int]));
                                }
                            }
                            lemma_steps_render_shift(out@);
                            assert(steps_render_from(out@, 0) == seq!['/'] + st.render()
                                + steps_render_from(rest_v, 0));
                            assert(steps_render_from(out@, 0) =~= s@.subrange(i as int, e as int));
                            assert(sp_steps(s@, i as int) == Some((out@, e as int)));
                            assert(forall|k: int|
                                0 <= k < out@.len() ==> (#[trigger] out@[k]).wf()) by {
                                assert(st.wf());
                                assert(forall|k: int|
                                    1 <= k < out@.len() ==> out@[k] == #[trigger] rest_v[k - 1]);
                            }
                        }
                        Some((out, e))
                    },
                }
            },
        }
    } else {
        let v: Vec<ChildStep> = Vec::new();
        proof {
            assert(steps_render_from(v@, 0) =~= s@.subrange(i as int, i as int));
        }
        Some((v, i))
    }
}

/// The tail of a step sequence.
pub open spec fn steps_tail(p: Seq<ChildStep>) -> Seq<ChildStep> {
    p.subrange(1, p.len() as int)
}

/// Rendering a non-empty step sequence renders its head and then its tail.
pub proof fn lemma_steps_render_shift(p: Seq<ChildStep>)
    requires
        p.len() >= 1,
    ensures
        steps_render_from(p, 0) == seq!['/'] + p[0].render() + steps_render_from(steps_tail(p), 0),
{
    lemma_steps_render_shift_from(p, 1);
}

proof fn lemma_steps_render_shift_from(p: Seq<ChildStep>, n: int)
    requires
        1 <= n <= p.len(),
    ensures
        steps_render_from(p, n) == steps_render_from(steps_tail(p), n - 1),
    decreases p.len() - n,
{
    if n < p.len() {
        lemma_steps_render_shift_from(p, n + 1);
        assert(steps_tail(p)[n - 1] == p[n]);
    }
}

/// The value parsed by `sp_dec` renders back to the characters it was read
/// from.
pub proof fn lemma_sp_dec_render(s: Seq<char>, i: int)
    requires
        0 <= i <= s.len(),
        sp_dec(s, i) is Some,
    ensures
        ({
            let (v, j) = sp_dec(s, i).unwrap();
            &&& dec_render(v as int) == s.subrange(i, j)
            &&& i < j <= s.len()
        }),
{
    let p = |c: char| crate::chars::is_digit(c);
    lemma_run_end_props(s, i, p);
    let j = run_end(s, i, p);
    crate::chars::lemma_dec_value_bound(s, i, j);
    lemma_dec_value_renders(s, i, j);
}

// ---------------------------------------------------------------------------
// Key origins.
// ---------------------------------------------------------------------------

/// The origin of an extended key: the master fingerprint (eight lowercase
/// hexadecimal characters) and the derivation path from that master.
#[derive(Debug)]
pub struct KeyOrigin {
    pub fingerprint: String,
    pub path: Vec<ChildStep>,
}

pub ghost struct OriginModel {
    pub fingerprint: Seq<char>,
    pub path: Seq<ChildStep>,
}

impl View for KeyOrigin {
    type V = OriginModel;

    open spec fn view(&self) -> OriginModel {
        OriginModel { fingerprint: self.fingerprint@, path: self.path@ }
    }
}

impl OriginModel {
    pub open spec fn wf(self) -> bool {
        &&& self.fingerprint.len() == 8
        &&& forall|k: int| 0 <= k < 8 ==> is_hex(#[trigger] self.fingerprint[k])
        &&& forall|k: int| 0 <= k < self.path.len() ==> (#[trigger] self.path[k]).wf()
    }

    /// `[fingerprint/step/.../step]`.
    pub open spec fn render(self) -> Seq<char> {
        seq!['['] + self.fingerprint + steps_render_from(self.path, 0) + seq![']']
    }
}

/// A bracketed key origin at position `i`.
pub open spec fn sp_origin(s: Seq<char>, i: int) -> Option<(OriginModel, int)> {
    if !(0 <= i < s.len() && s[i] == '[') {
        None
    } else if !(i + 9 <= s.len() && (forall|k: int| i + 1 <= k < i + 9 ==> is_hex(#[trigger] s[k]))) {
        None
    } else {
        match sp_steps(s, i + 9) {
            None => None,
            Some((path, e)) => {
                if e < s.len() && s[e] == ']' {
                    Some((OriginModel { fingerprint: s.subrange(i + 1, i + 9), path }, e + 1))
                } else {
                    None
                }
            },
        }
    }
}

pub fn p_origin(s: &str, i: usize) -> (r: Option<(KeyOrigin, usize)>)
    requires
        i <= s@.len(),
    ensures
        match r {
            Some((o, j)) => {
                &&& sp_origin(s@, i as int) == Some((o@, j as int))
                &&& i < j <= s@.len()
                &&& o@.wf()
                &&& o@.render() == s@.subrange(i as int, j as int)
            },
            None => sp_origin(s@, i as int) is None,
        },
{
    let len = s.unicode_len();
    if !(i < len && s.get_char(i) == '[') {
        return None;
    }
    if len - i < 9 {
        return None;
    }
    let mut k: usize = 1;
    while k < 9
        invariant
            1 <= k <= 9,
            i + 9 <= len,
            len == s@.len(),
            forall|m: int| i + 1 <= m < i + k ==> is_hex(#[trigger] s@[m]),
        decreases 9 - k,
    {
        if !exec_is_hex(s.get_char(i + k)) {
            return None;
        }
        k = k + 1;
    }
    let fp_slice = s.substring_char(i + 1, i + 9);
    let fingerprint = String::from_str(fp_slice);
    match p_steps(s, i + 9) {
        None => None,
        Some((path, e)) => {
            if e < len && s.get_char(e) == ']' {
                let o = KeyOrigin { fingerprint, path };
                proof {
                    assert(o@.render() =~= s@.subrange(i as int, e as int + 1));
                }
                Some((o, e + 1))
            } else {
                None
            }
        },
    }
}

// ---------------------------------------------------------------------------
// Extended public keys.
// ---------------------------------------------------------------------------

/// A serialized extended public key (base58 text starting `xpub` or `tpub`)
/// together with its optional origin.
#[derive(Debug)]
pub struct ExtendedKey {
    pub origin: Option<KeyOrigin>,
    pub xpub: String,
}

pub ghost struct KeyModel {
    pub origin: Option<OriginModel>,
    pub xpub: Seq<char>,
}

impl View for ExtendedKey {
    type V = KeyModel;

    open spec fn view(&self) -> KeyModel {
        KeyModel {
            origin: match self.origin {
                Some(o) => Some(o@),
                None => None,
            },
            xpub: self.xpub@,
        }
    }
}

impl KeyModel {
    pub open spec fn wf(self) -> bool {
        &&& self.xpub.len() >= 5
        &&& forall|k: int| 0 <= k < self.xpub.len() ==> is_b58(#[trigger] self.xpub[k])
        &&& (self.xpub[0] == 'x' || self.xpub[0] == 't')
        &&& self.xpub[1] == 'p'
        &&& self.xpub[2] == 'u'
        &&& self.xpub[3] == 'b'
        &&& match self.origin {
            Some(o) => o.wf(),
            None => true,
        }
    }

    /// The origin in brackets, if any, followed by the key text.
    pub open spec fn render(self) -> Seq<char> {
        (match self.origin {
            Some(o) => o.render(),
            None => Seq::empty(),
        }) + self.xpub
    }

    /// The network family the key's version prefix belongs to: `xpub` keys
    /// are mainnet keys, `tpub` keys belong to the test networks.
    pub open spec fn matches_network(self, n: Network) -> bool {
        if self.xpub[0] == 'x' {
            n is Mainnet
        } else {
            !(n is Mainnet)
        }
    }
}

/// An extended key with optional origin at position `i`.
pub open spec fn sp_key(s: Seq<char>, i: int) -> Option<(KeyModel, int)> {
    let head = if 0 <= i < s.len() && s[i] == '[' {
        match sp_origin(s, i) {
            None => None,
            Some((o, j)) => Some((Some(o), j)),
        }
    } else {
        Some((None::<OriginModel>, i))
    };
    match head {
        None => None,
        Some((origin, j)) => {
            let e = run_end(s, j, |c: char| is_b58(c));
            if e - j < 5 {
                None
            } else if !((s[j] == 'x' || s[j] == 't') && s[j + 1] == 'p' && s[j + 2] == 'u' && s[j
                + 3] == 'b') {
                None
            } else {
                Some((KeyModel { origin, xpub: s.subrange(j, e) }, e))
            }
        },
    }
}

pub fn p_key(s: &str, i: usize) -> (r: Option<(ExtendedKey, usize)>)
    requires
        i <= s@.len(),
    ensures
        match r {
            Some((key, j)) => {
                &&& sp_key(s@, i as int) == Some((key@, j as int))
                &&& i < j <= s@.len()
                &&& key@.wf()
                &&& key@.render() == s@.subrange(i as int, j as int)
            },
            None => sp_key(s@, i as int) is None,
        },
{
    let len = s.unicode_len();
    let ghost b58 = |c: char| is_b58(c);
    let (origin, j): (Option<KeyOrigin>, usize) = if i < len && s.get_char(i) == '[' {
        match p_origin(s, i) {
            None => {
                return None;
            },
            Some((o, j)) => (Some(o), j),
        }
    } else {
        (None, i)
    };
    let mut e = j;
    while e < len && exec_is_b58(s.get_char(e))
        invariant
            j <= e <= len,
            len == s@.len(),
            forall|k: int| j <= k < e ==> is_b58(#[trigger] s@[k]),
        decreases len - e,
    {
        e = e + 1;
    }
    proof {
        lemma_run_end_of(s@, j as int, e as int, b58);
    }
    if e - j < 5 {
        return None;
    }
    if !((s.get_char(j) == 'x' || s.get_char(j) == 't') && s.get_char(j + 1) == 'p' && s.get_char(
        j + 2,
    ) == 'u' && s.get_char(j + 3) == 'b') {
        return None;
    }
    let xpub = String::from_str(s.substring_char(j, e));
    let key = ExtendedKey { origin, xpub };
    proof {
        assert(key@.render() =~= s@.subrange(i as int, e as int));
    }
    Some((key, e))
}

impl ExtendedKey {
    /// Parses `[fingerprint/path]key` or bare `key` text; the whole input
    /// must be one key.
    pub fn from_str(text: &str) -> (r: Result<ExtendedKey, Error>)
        ensures
            match r {
                Ok(key) => {
                    &&& sp_key(text@, 0) == Some((key@, text@.len() as int))
                    &&& key@.wf()
                    &&& key@.render() == text@
                },
                Err(e) => {
                    &&& e is DescriptorSyntax
                    &&& !(sp_key(text@, 0) matches Some((m, j)) && j == text@.len())
                },
            },
    {
        match p_key(text, 0) {
            None => Err(Error::DescriptorSyntax { pos: 0 }),
            Some((key, j)) => {
                if j == text.unicode_len() {
                    proof {
                        assert(text@.subrange(0, text@.len() as int) =~= text@);
                    }
                    Ok(key)
                } else {
                    Err(Error::DescriptorSyntax { pos: j })
                }
            },
        }
    }

    /// Whether the key's embedded network tag is consistent with `network`.
    pub fn matches_network(&self, network: &Network) -> (r: bool)
        requires
            self@.wf(),
        ensures
            r == self@.matches_network(*network),
    {
        let is_main = self.xpub.as_str().get_char(0) == 'x';
        match network {
            Network::Mainnet => is_main,
            _ => !is_main,
        }
    }

    /// A deep copy.
    pub fn duplicate(&self) -> (r: ExtendedKey)
        ensures
            r@ == self@,
    {
        let origin: Option<KeyOrigin> = match &self.origin {
            Some(o) => {
                let mut path: Vec<ChildStep> = Vec::new();
                let mut k: usize = 0;
                while k < o.path.len()
                    invariant
                        0 <= k <= o.path@.len(),
                        path@ == o.path@.take(k as int),
                    decreases o.path@.len() - k,
                {
                    path.push(o.path[k]);
                    proof {
                        assert(path@ =~= o.path@.take(k as int + 1));
                    }
                    k = k + 1;
                }
                proof {
                    assert(path@ =~= o.path@);
                }
                Some(KeyOrigin { fingerprint: o.fingerprint.clone(), path })
            },
            None => None,
        };
        ExtendedKey { origin, xpub: self.xpub.clone() }
    }
}

} // verus!
