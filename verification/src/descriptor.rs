use vstd::prelude::*;

use crate::chars::dec_render;
use crate::chars::is_digit;
use crate::chars::lemma_run_end_of;
use crate::chars::lemma_run_end_props;
use crate::chars::p_dec;
use crate::chars::p_lit;
use crate::chars::push_dec;
use crate::chars::run_end;
use crate::chars::sp_dec;
use crate::chars::sp_lit;
use crate::checksum;
use crate::checksum::char_value;
use crate::errors::Error;
use crate::keys::lemma_sp_dec_render;
use crate::keys::p_key;
use crate::keys::sp_key;
use crate::keys::steps_render_from;
use crate::keys::ChildStep;
use crate::keys::ExtendedKey;
use crate::keys::KeyModel;
use crate::keys::OriginModel;
use crate::network::Network;

verus! {

// ---------------------------------------------------------------------------
// Script templates.
// ---------------------------------------------------------------------------

/// The spending-script template of a multisig descriptor: legacy `sh(...)`,
/// native segwit `wsh(...)`, or segwit wrapped in legacy `sh(wsh(...))`.
#[derive(Clone, Copy, PartialEq, Eq, Structural, Debug)]
pub enum ScriptType {
    P2sh,
    P2wsh,
    P2shP2wsh,
}

pub open spec fn lit_sh() -> Seq<char> {
    seq!['s', 'h', '(']
}

pub open spec fn lit_wsh() -> Seq<char> {
    seq!['w', 's', 'h', '(']
}

pub open spec fn lit_shwsh() -> Seq<char> {
    seq!['s', 'h', '(', 'w', 's', 'h', '(']
}

pub open spec fn lit_multi() -> Seq<char> {
    seq!['m', 'u', 'l', 't', 'i', '(']
}

pub open spec fn lit_sortedmulti() -> Seq<char> {
    seq!['s', 'o', 'r', 't', 'e', 'd', 'm', 'u', 'l', 't', 'i', '(']
}

// ---------------------------------------------------------------------------
// Descriptor keys and the descriptor model.
// ---------------------------------------------------------------------------

/// One key of a descriptor: an extended key and the keychain branch index
/// that precedes the `/*` wildcard.
#[derive(Debug)]
pub struct DescriptorKey {
    pub key: ExtendedKey,
    pub branch: u32,
}

pub ghost struct DescKeyModel {
    pub key: KeyModel,
    pub branch: u32,
}

impl View for DescriptorKey {
    type V = DescKeyModel;

    open spec fn view(&self) -> DescKeyModel {
        DescKeyModel { key: self.key@, branch: self.branch }
    }
}

impl DescKeyModel {
    pub open spec fn wf(self) -> bool {
        &&& self.key.wf()
        &&& self.branch < crate::chars::index_limit()
    }

    /// `key/branch/*`.
    pub open spec fn render(self) -> Seq<char> {
        self.key.render() + seq!['/'] + dec_render(self.branch as int) + seq!['/', '*']
    }
}

/// The keys of the list from entry `n` on, each preceded by a comma.
pub open spec fn keys_render_from(keys: Seq<DescKeyModel>, n: int) -> Seq<char>
    decreases keys.len() - n,
{
    if n < 0 || n >= keys.len() {
        Seq::empty()
    } else {
        seq![','] + keys[n].render() + keys_render_from(keys, n + 1)
    }
}

/// A parsed multisig output descriptor: a quorum of extended keys inside a
/// script template, each key carrying a keychain branch and wildcard.
#[derive(Debug)]
pub struct ExtendedDescriptor {
    pub script: ScriptType,
    pub sorted: bool,
    pub threshold: u32,
    pub keys: Vec<DescriptorKey>,
}

pub ghost struct DescModel {
    pub script: ScriptType,
    pub sorted: bool,
    pub threshold: u32,
    pub keys: Seq<DescKeyModel>,
}

impl View for ExtendedDescriptor {
    type V = DescModel;

    open spec fn view(&self) -> DescModel {
        DescModel {
            script: self.script,
            sorted: self.sorted,
            threshold: self.threshold,
            keys: Seq::new(self.keys@.len(), |k: int| self.keys@[k]@),
        }
    }
}

impl DescModel {
    pub open spec fn wf(self) -> bool {
        &&& 1 <= self.threshold <= self.keys.len()
        &&& forall|k: int| 0 <= k < self.keys.len() ==> (#[trigger] self.keys[k]).wf()
    }

    /// The inner `multi(...)`/`sortedmulti(...)` expression.
    pub open spec fn render_multi(self) -> Seq<char> {
        (if self.sorted {
            lit_sortedmulti()
        } else {
            lit_multi()
        }) + dec_render(self.threshold as int) + keys_render_from(self.keys, 0) + seq![')']
    }

    /// The canonical descriptor text, without checksum.
    pub open spec fn render(self) -> Seq<char> {
        match self.script {
            ScriptType::P2sh => lit_sh() + self.render_multi() + seq![')'],
            ScriptType::P2wsh => lit_wsh() + self.render_multi() + seq![')'],
            ScriptType::P2shP2wsh => lit_shwsh() + self.render_multi() + seq![')', ')'],
        }
    }

    /// Whether every key's embedded network tag is consistent with `n`.
    pub open spec fn matches_network(self, n: Network) -> bool {
        forall|k: int| 0 <= k < self.keys.len() ==> (#[trigger] self.keys[k]).key.matches_network(n)
    }
}

// ---------------------------------------------------------------------------
// Parsing.
// ---------------------------------------------------------------------------

/// A descriptor key with branch and wildcard at position `i`.
pub open spec fn sp_desckey(s: Seq<char>, i: int) -> Option<(DescKeyModel, int)> {
    match sp_key(s, i) {
        None => None,
        Some((key, j)) => {
            if !(j < s.len() && s[j] == '/') {
                None
            } else {
                match sp_dec(s, j + 1) {
                    None => None,
                    Some((branch, j2)) => {
                        if j2 + 2 <= s.len() && s[j2] == '/' && s[j2 + 1] == '*' {
                            Some((DescKeyModel { key, branch }, j2 + 2))
                        } else {
                            None
                        }
                    },
                }
            }
        },
    }
}

/// Bounds of a parsed step list.
pub proof fn lemma_sp_steps_bounds(s: Seq<char>, i: int)
    requires
        0 <= i <= s.len(),
        crate::keys::sp_steps(s, i) is Some,
    ensures
        ({
            let (v, e) = crate::keys::sp_steps(s, i).unwrap();
            i <= e <= s.len()
        }),
    decreases s.len() - i,
{
    if 0 <= i < s.len() && s[i] == '/' {
        match sp_dec(s, i + 1) {
            None => {},
            Some((v, j)) => {
                lemma_run_end_props(s, i + 1, |c: char| is_digit(c));
                let j2 = if j < s.len() && (s[j] == '\'' || s[j] == 'h') {
                    j + 1
                } else {
                    j
                };
                lemma_sp_steps_bounds(s, j2);
            },
        }
    }
}

/// Bounds of a parsed key.
pub proof fn lemma_sp_key_bounds(s: Seq<char>, i: int)
    requires
        0 <= i <= s.len(),
        sp_key(s, i) is Some,
    ensures
        ({
            let (k, e) = sp_key(s, i).unwrap();
            i < e <= s.len()
        }),
{
    if 0 <= i < s.len() && s[i] == '[' {
        match crate::keys::sp_origin(s, i) {
            None => {},
            Some((o, j)) => {
                lemma_sp_steps_bounds(s, i + 9);
                let (path, e) = crate::keys::sp_steps(s, i + 9).unwrap();
                lemma_run_end_props(s, j, |c: char| crate::chars::is_b58(c));
            },
        }
    } else {
        lemma_run_end_props(s, i, |c: char| crate::chars::is_b58(c));
    }
}

/// Bounds of a parsed descriptor key.
pub proof fn lemma_sp_desckey_bounds(s: Seq<char>, i: int)
    requires
        0 <= i <= s.len(),
        sp_desckey(s, i) is Some,
    ensures
        ({
            let (k, e) = sp_desckey(s, i).unwrap();
            i < e <= s.len()
        }),
{
    lemma_sp_key_bounds(s, i);
    let (key, j) = sp_key(s, i).unwrap();
    lemma_run_end_props(s, j + 1, |c: char| is_digit(c));
}

pub fn p_desckey(s: &str, i: usize) -> (r: Option<(DescriptorKey, usize)>)
    requires
        i <= s@.len(),
    ensures
        match r {
            Some((dk, j)) => {
                &&& sp_desckey(s@, i as int) == Some((dk@, j as int))
                &&& i < j <= s@.len()
                &&& dk@.wf()
                &&& dk@.render() == s@.subrange(i as int, j as int)
            },
            None => sp_desckey(s@, i as int) is None,
        },
{
    let len = s.unicode_len();
    match p_key(s, i) {
        None => None,
        Some((key, j)) => {
            if !(j < len && s.get_char(j) == '/') {
                return None;
            }
            match p_dec(s, j + 1) {
                None => None,
                Some((branch, j2)) => {
                    if len - j2 >= 2 && s.get_char(j2) == '/' && s.get_char(j2 + 1) == '*' {
                        let dk = DescriptorKey { key, branch };
                        proof {
                            lemma_sp_dec_render(s@, j as int + 1);
                            assert(dk@.render() =~= s@.subrange(i as int, j2 as int + 2));
                        }
                        Some((dk, j2 + 2))
                    } else {
                        None
                    }
                },
            }
        },
    }
}

/// A `,`-led list of descriptor keys, ending before the first character that
/// does not open another entry.
pub open spec fn sp_keylist(s: Seq<char>, i: int) -> Option<(Seq<DescKeyModel>, int)>
    decreases s.len() - i,
    via sp_keylist_decreases
{
    if 0 <= i < s.len() && s[i] == ',' {
        match sp_desckey(s, i + 1) {
            None => None,
            Some((dk, j)) => {
                match sp_keylist(s, j) {
                    None => None,
                    Some((rest, e)) => Some((seq![dk] + rest, e)),
                }
            },
        }
    } else {
        Some((Seq::empty(), i))
    }
}

#[via_fn]
proof fn sp_keylist_decreases(s: Seq<char>, i: int) {
    if 0 <= i < s.len() && s[i] == ',' {
        if sp_desckey(s, i + 1) is Some {
            lemma_sp_desckey_bounds(s, i + 1);
        }
    }
}

/// The tail of a key sequence.
pub open spec fn keylist_tail(p: Seq<DescKeyModel>) -> Seq<DescKeyModel> {
    p.subrange(1, p.len() as int)
}

pub proof fn lemma_keys_render_shift(p: Seq<DescKeyModel>)
    requires
        p.len() >= 1,
    ensures
        keys_render_from(p, 0) == seq![','] + p[0].render() + keys_render_from(keylist_tail(p), 0),
{
    lemma_keys_render_shift_from(p, 1);
}

proof fn lemma_keys_render_shift_from(p: Seq<DescKeyModel>, n: int)
    requires
        1 <= n <= p.len(),
    ensures
        keys_render_from(p, n) == keys_render_from(keylist_tail(p), n - 1),
    decreases p.len() - n,
{
    if n < p.len() {
        lemma_keys_render_shift_from(p, n + 1);
        assert(keylist_tail(p)[n - 1] == p[n]);
    }
}

pub fn p_keylist(s: &str, i: usize) -> (r: Option<(Vec<DescriptorKey>, usize)>)
    requires
        i <= s@.len(),
    ensures
        match r {
            Some((v, j)) => {
                &&& sp_keylist(s@, i as int) == Some(
                    (Seq::new(v@.len(), |k: int| v@[k]@), j as int),
                )
                &&& i <= j <= s@.len()
                &&& keys_render_from(Seq::new(v@.len(), |k: int| v@[k]@), 0) == s@.subrange(
                    i as int,
                    j as int,
                )
                &&& forall|k: int| 0 <= k < v@.len() ==> (#[trigger] v@[k]@).wf()
            },
            None => sp_keylist(s@, i as int) is None,
        },
    decreases s@.len() - i,
{
    let len = s.unicode_len();
    if i < len && s.get_char(i) == ',' {
        match p_desckey(s, i + 1) {
            None => None,
            Some((dk, j)) => {
                match p_keylist(s, j) {
                    None => None,
                    Some((rest, e)) => {
                        let ghost dkm = dk@;
                        let ghost rest_m = Seq::new(rest@.len(), |k: int| rest@[k]@);
                        let mut out = rest;
                        out.insert(0, dk);
                        let ghost out_m = Seq::new(out@.len(), |k: int| out@[k]@);
                        proof {
                            assert(out_m =~= seq![dkm] + rest_m);
                            assert(keylist_tail(out_m) =~= rest_m);
                            lemma_keys_render_shift(out_m);
                            assert(keys_render_from(out_m, 0) =~= s@.subrange(
                                i as int,
                                e as int,
                            ));
                            assert(sp_keylist(s@, i as int) == Some((out_m, e as int)));
                            assert(forall|k: int|
                                0 <= k < out@.len() ==> (#[trigger] out@[k]@).wf()) by {
                                assert(out@[0]@ == dkm);
                                assert(forall|k: int|
                                    1 <= k < out@.len() ==> out@[k]@ == #[trigger] rest_m[k - 1]);
                            }
                        }
                        Some((out, e))
                    },
                }
            },
        }
    } else {
        let v: Vec<DescriptorKey> = Vec::new();
        proof {
            let ghost vm = Seq::new(v@.len(), |k: int| v@[k]@);
            assert(vm =~= Seq::<DescKeyModel>::empty());
            assert(keys_render_from(vm, 0) =~= s@.subrange(i as int, i as int));
        }
        Some((v, i))
    }
}

/// The `multi(` / `sortedmulti(` expression with threshold and keys, from
/// position `i` up to its closing parenthesis.
pub open spec fn sp_multi(s: Seq<char>, i: int) -> Option<((bool, u32, Seq<DescKeyModel>), int)> {
    let head = if sp_lit(s, i, lit_sortedmulti()) is Some {
        Some((true, i + lit_sortedmulti().len() as int))
    } else if sp_lit(s, i, lit_multi()) is Some {
        Some((false, i + lit_multi().len() as int))
    } else {
        None
    };
    match head {
        None => None,
        Some((sorted, j0)) => match sp_dec(s, j0) {
            None => None,
            Some((t, j1)) => match sp_keylist(s, j1) {
                None => None,
                Some((keys, j2)) => {
                    if keys.len() >= 1 && 1 <= t <= keys.len() && j2 < s.len() && s[j2] == ')' {
                        Some(((sorted, t, keys), j2 + 1))
                    } else {
                        None
                    }
                },
            },
        },
    }
}

fn p_multi(s: &str, i: usize) -> (r: Option<((bool, u32, Vec<DescriptorKey>), usize)>)
    requires
        i <= s@.len(),
    ensures
        match r {
            Some(((sorted, t, keys), j)) => {
                &&& sp_multi(s@, i as int) == Some(
                    ((sorted, t, Seq::new(keys@.len(), |k: int| keys@[k]@)), j as int),
                )
                &&& i < j <= s@.len()
                &&& 1 <= t <= keys@.len()
                &&& forall|k: int| 0 <= k < keys@.len() ==> (#[trigger] keys@[k]@).wf()
                &&& ((if sorted {
                    lit_sortedmulti()
                } else {
                    lit_multi()
                }) + dec_render(t as int) + keys_render_from(
                    Seq::new(keys@.len(), |k: int| keys@[k]@),
                    0,
                ) + seq![')']) == s@.subrange(i as int, j as int)
            },
            None => sp_multi(s@, i as int) is None,
        },
{
    let len = s.unicode_len();
    proof {
        reveal_strlit("sortedmulti(");
        reveal_strlit("multi(");
        assert("sortedmulti("@ =~= lit_sortedmulti());
        assert("multi("@ =~= lit_multi());
    }
    let (sorted, j0): (bool, usize) = match p_lit(s, i, "sortedmulti(") {
        Some(j0) => (true, j0),
        None => {
            match p_lit(s, i, "multi(") {
                Some(j0) => (false, j0),
                None => {
                    return None;
                },
            }
        },
    };
    match p_dec(s, j0) {
        None => None,
        Some((t, j1)) => {
            match p_keylist(s, j1) {
                None => None,
                Some((keys, j2)) => {
                    let n = keys.len();
                    if n >= 1 && 1 <= t && (t as usize) <= n && j2 < len && s.get_char(j2) == ')' {
                        proof {
                            lemma_sp_dec_render(s@, j0 as int);
                            assert(((if sorted {
                                lit_sortedmulti()
                            } else {
                                lit_multi()
                            }) + dec_render(t as int) + keys_render_from(
                                Seq::new(keys@.len(), |k: int| keys@[k]@),
                                0,
                            ) + seq![')']) =~= s@.subrange(i as int, j2 as int + 1));
                        }
                        Some(((sorted, t, keys), j2 + 1))
                    } else {
                        None
                    }
                },
            }
        },
    }
}

/// The remainder of a descriptor body after its opening template literal:
/// the multi expression and the template's closing parentheses.
pub open spec fn sp_body_rest(s: Seq<char>, j0: int, script: ScriptType) -> Option<
    (DescModel, int),
> {
    match sp_multi(s, j0) {
        None => None,
        Some(((sorted, t, keys), j)) => {
            if script is P2shP2wsh {
                if j + 2 <= s.len() && s[j] == ')' && s[j + 1] == ')' {
                    Some((DescModel { script, sorted, threshold: t, keys }, j + 2))
                } else {
                    None
                }
            } else {
                if j < s.len() && s[j] == ')' {
                    Some((DescModel { script, sorted, threshold: t, keys }, j + 1))
                } else {
                    None
                }
            }
        },
    }
}

/// The closing text a template adds after its multi expression.
pub open spec fn closer(script: ScriptType) -> Seq<char> {
    if script is P2shP2wsh {
        seq![')', ')']
    } else {
        seq![')']
    }
}

#[verifier::rlimit(100)]
fn p_body_rest(s: &str, j0: usize, script: ScriptType) -> (r: Option<(ExtendedDescriptor, usize)>)
    requires
        j0 <= s@.len(),
    ensures
        match r {
            Some((d, j)) => {
                &&& sp_body_rest(s@, j0 as int, script) == Some((d@, j as int))
                &&& j0 < j <= s@.len()
                &&& d@.wf()
                &&& d.script == script
                &&& d@.render_multi() + closer(script) == s@.subrange(j0 as int, j as int)
            },
            None => sp_body_rest(s@, j0 as int, script) is None,
        },
{
    let len = s.unicode_len();
    match p_multi(s, j0) {
        None => None,
        Some(((sorted, t, keys), j)) => {
            let two = match script {
                ScriptType::P2shP2wsh => true,
                _ => false,
            };
            if two {
                if len - j >= 2 && s.get_char(j) == ')' && s.get_char(j + 1) == ')' {
                    let d = ExtendedDescriptor { script, sorted, threshold: t, keys };
                    proof {
                        assert(d@.render_multi() + closer(script) =~= s@.subrange(
                            j0 as int,
                            j as int + 2,
                        ));
                    }
                    Some((d, j + 2))
                } else {
                    None
                }
            } else {
                if j < len && s.get_char(j) == ')' {
                    let d = ExtendedDescriptor { script, sorted, threshold: t, keys };
                    proof {
                        assert(d@.render_multi() + closer(script) =~= s@.subrange(
                            j0 as int,
                            j as int + 1,
                        ));
                    }
                    Some((d, j + 1))
                } else {
                    None
                }
            }
        },
    }
}

/// Two adjacent slices of a text concatenate to the enclosing slice.
pub proof fn lemma_concat_slices(s: Seq<char>, i: int, j0: int, j: int, front: Seq<char>, mid: Seq<char>)
    requires
        0 <= i <= j0 <= j <= s.len(),
        s.subrange(i, j0) == front,
        s.subrange(j0, j) == mid,
    ensures
        front + mid == s.subrange(i, j),
{
    assert(front + mid =~= s.subrange(i, j));
}

/// A whole descriptor body (no checksum) from position `i`.
pub open spec fn sp_descriptor_body(s: Seq<char>, i: int) -> Option<(DescModel, int)> {
    if sp_lit(s, i, lit_shwsh()) is Some {
        sp_body_rest(s, i + lit_shwsh().len() as int, ScriptType::P2shP2wsh)
    } else if sp_lit(s, i, lit_wsh()) is Some {
        sp_body_rest(s, i + lit_wsh().len() as int, ScriptType::P2wsh)
    } else if sp_lit(s, i, lit_sh()) is Some {
        sp_body_rest(s, i + lit_sh().len() as int, ScriptType::P2sh)
    } else {
        None
    }
}

#[verifier::rlimit(100)]
pub fn p_descriptor_body(s: &str, i: usize) -> (r: Option<(ExtendedDescriptor, usize)>)
    requires
        i <= s@.len(),
    ensures
        match r {
            Some((d, j)) => {
                &&& sp_descriptor_body(s@, i as int) == Some((d@, j as int))
                &&& i < j <= s@.len()
                &&& d@.wf()
                &&& d@.render() == s@.subrange(i as int, j as int)
            },
            None => sp_descriptor_body(s@, i as int) is None,
        },
{
    proof {
        reveal_strlit("sh(wsh(");
        reveal_strlit("wsh(");
        reveal_strlit("sh(");
        assert("sh(wsh("@ =~= lit_shwsh());
        assert("wsh("@ =~= lit_wsh());
        assert("sh("@ =~= lit_sh());
    }
    if let Some(j0) = p_lit(s, i, "sh(wsh(") {
        match p_body_rest(s, j0, ScriptType::P2shP2wsh) {
            None => None,
            Some((d, j)) => {
                proof {
                    lemma_concat_slices(
                        s@,
                        i as int,
                        j0 as int,
                        j as int,
                        lit_shwsh(),
                        d@.render_multi() + closer(ScriptType::P2shP2wsh),
                    );
                    assert(d@.render() =~= lit_shwsh() + (d@.render_multi() + closer(
                        ScriptType::P2shP2wsh,
                    )));
                }
                Some((d, j))
            },
        }
    } else if let Some(j0) = p_lit(s, i, "wsh(") {
        match p_body_rest(s, j0, ScriptType::P2wsh) {
            None => None,
            Some((d, j)) => {
                proof {
                    lemma_concat_slices(
                        s@,
                        i as int,
                        j0 as int,
                        j as int,
                        lit_wsh(),
                        d@.render_multi() + closer(ScriptType::P2wsh),
                    );
                    assert(d@.render() =~= lit_wsh() + (d@.render_multi() + closer(ScriptType::P2wsh)));
                }
                Some((d, j))
            },
        }
    } else if let Some(j0) = p_lit(s, i, "sh(") {
        match p_body_rest(s, j0, ScriptType::P2sh) {
            None => None,
            Some((d, j)) => {
                proof {
                    lemma_concat_slices(
                        s@,
                        i as int,
                        j0 as int,
                        j as int,
                        lit_sh(),
                        d@.render_multi() + closer(ScriptType::P2sh),
                    );
                    assert(d@.render() =~= lit_sh() + (d@.render_multi() + closer(ScriptType::P2sh)));
                }
                Some((d, j))
            },
        }
    } else {
        None
    }
}

/// What `ExtendedDescriptor::from_str` accepts: a descriptor body covering
/// the whole text, optionally followed by `#` and a matching checksum.
pub open spec fn sp_descriptor_str(s: Seq<char>) -> Option<DescModel> {
    match sp_descriptor_body(s, 0) {
        None => None,
        Some((m, j)) => {
            if j == s.len() {
                Some(m)
            } else if s[j] == '#' && checksum::spec_verify(s) == Some(true) {
                Some(m)
            } else {
                None
            }
        },
    }
}


// ---------------------------------------------------------------------------
// Rendered descriptors stay inside the checksum alphabet.
// ---------------------------------------------------------------------------

/// Every character of `t` lies in the descriptor alphabet.
pub open spec fn in_alphabet(t: Seq<char>) -> bool {
    forall|k: int| 0 <= k < t.len() ==> char_value(#[trigger] t[k]) is Some
}

pub proof fn lemma_alpha_concat(a: Seq<char>, b: Seq<char>)
    requires
        in_alphabet(a),
        in_alphabet(b),
    ensures
        in_alphabet(a + b),
{
    assert forall|k: int| 0 <= k < (a + b).len() implies char_value(#[trigger] (a + b)[k]) is Some by {
        if k < a.len() {
            assert((a + b)[k] == a[k]);
        } else {
            assert((a + b)[k] == b[k - a.len()]);
        }
    }
}

pub proof fn lemma_alpha_classes()
    ensures
        forall|c: char| is_digit(c) ==> (#[trigger] char_value(c)) is Some,
        forall|c: char| crate::chars::is_hex(c) ==> (#[trigger] char_value(c)) is Some,
        forall|c: char| crate::chars::is_b58(c) ==> (#[trigger] char_value(c)) is Some,
{
}

pub proof fn lemma_alpha_dec(n: int)
    requires
        n >= 0,
    ensures
        in_alphabet(dec_render(n)),
{
    crate::chars::lemma_dec_render_digits(n);
    lemma_alpha_classes();
}

pub proof fn lemma_alpha_steps(p: Seq<ChildStep>, n: int)
    requires
        forall|k: int| 0 <= k < p.len() ==> (#[trigger] p[k]).wf(),
    ensures
        in_alphabet(steps_render_from(p, n)),
    decreases p.len() - n,
{
    if 0 <= n < p.len() {
        lemma_alpha_steps(p, n + 1);
        lemma_alpha_dec(p[n].index as int);
        if p[n].hardened {
            lemma_alpha_concat(dec_render(p[n].index as int), seq![p[n].marker()]);
            assert(p[n].render() =~= dec_render(p[n].index as int) + seq![p[n].marker()]);
        }
        lemma_alpha_concat(seq!['/'], p[n].render());
        lemma_alpha_concat(seq!['/'] + p[n].render(), steps_render_from(p, n + 1));
    }
}

pub proof fn lemma_alpha_key(key: KeyModel)
    requires
        key.wf(),
    ensures
        in_alphabet(key.render()),
{
    lemma_alpha_classes();
    match key.origin {
        Some(o) => {
            lemma_alpha_steps(o.path, 0);
            lemma_alpha_concat(seq!['['], o.fingerprint);
            lemma_alpha_concat(seq!['['] + o.fingerprint, steps_render_from(o.path, 0));
            lemma_alpha_concat(
                seq!['['] + o.fingerprint + steps_render_from(o.path, 0),
                seq![']'],
            );
            lemma_alpha_concat(o.render(), key.xpub);
        },
        None => {
            assert(key.render() =~= key.xpub);
        },
    }
}

pub proof fn lemma_alpha_desckey(dk: DescKeyModel)
    requires
        dk.wf(),
    ensures
        in_alphabet(dk.render()),
{
    lemma_alpha_key(dk.key);
    lemma_alpha_dec(dk.branch as int);
    lemma_alpha_concat(dk.key.render(), seq!['/']);
    lemma_alpha_concat(dk.key.render() + seq!['/'], dec_render(dk.branch as int));
    lemma_alpha_concat(
        dk.key.render() + seq!['/'] + dec_render(dk.branch as int),
        seq!['/', '*'],
    );
}

pub proof fn lemma_alpha_keys(keys: Seq<DescKeyModel>, n: int)
    requires
        forall|k: int| 0 <= k < keys.len() ==> (#[trigger] keys[k]).wf(),
    ensures
        in_alphabet(keys_render_from(keys, n)),
    decreases keys.len() - n,
{
    if 0 <= n < keys.len() {
        lemma_alpha_keys(keys, n + 1);
        lemma_alpha_desckey(keys[n]);
        lemma_alpha_concat(seq![','], keys[n].render());
        lemma_alpha_concat(seq![','] + keys[n].render(), keys_render_from(keys, n + 1));
    }
}

/// The canonical text of a well-formed descriptor lies wholly inside the
/// checksum alphabet, so it always has a checksum and holds no `#`.
pub proof fn lemma_alpha_render(d: DescModel)
    requires
        d.wf(),
    ensures
        in_alphabet(d.render()),
{
    lemma_alpha_keys(d.keys, 0);
    lemma_alpha_dec(d.threshold as int);
    let front = if d.sorted {
        lit_sortedmulti()
    } else {
        lit_multi()
    };
    lemma_alpha_concat(front, dec_render(d.threshold as int));
    lemma_alpha_concat(front + dec_render(d.threshold as int), keys_render_from(d.keys, 0));
    lemma_alpha_concat(
        front + dec_render(d.threshold as int) + keys_render_from(d.keys, 0),
        seq![')'],
    );
    match d.script {
        ScriptType::P2sh => {
            lemma_alpha_concat(lit_sh(), d.render_multi());
            lemma_alpha_concat(lit_sh() + d.render_multi(), seq![')']);
        },
        ScriptType::P2wsh => {
            lemma_alpha_concat(lit_wsh(), d.render_multi());
            lemma_alpha_concat(lit_wsh() + d.render_multi(), seq![')']);
        },
        ScriptType::P2shP2wsh => {
            lemma_alpha_concat(lit_shwsh(), d.render_multi());
            lemma_alpha_concat(lit_shwsh() + d.render_multi(), seq![')', ')']);
        },
    }
}

// ---------------------------------------------------------------------------
// Rendering.
// ---------------------------------------------------------------------------

fn push_steps(out: &mut String, path: &Vec<ChildStep>, n: usize)
    requires
        n <= path@.len(),
    ensures
        final(out)@ == old(out)@ + steps_render_from(path@, n as int),
    decreases path@.len() - n,
{
    if n < path.len() {
        out.push('/');
        push_dec(out, path[n].index);
        if path[n].hardened {
            if path[n].h_marker {
                out.push('h');
            } else {
                out.push('\'');
            }
            proof {
                assert(path@[n as int].render() =~= dec_render(path@[n as int].index as int)
                    + seq![path@[n as int].marker()]);
            }
        }
        push_steps(out, path, n + 1);
        proof {
            assert(final(out)@ =~= old(out)@ + steps_render_from(path@, n as int));
        }
    } else {
        proof {
            assert(old(out)@ + steps_render_from(path@, n as int) =~= old(out)@);
        }
    }
}

fn push_key(out: &mut String, key: &ExtendedKey)
    ensures
        final(out)@ == old(out)@ + key@.render(),
{
    match &key.origin {
        Some(o) => {
            out.push('[');
            out.append(o.fingerprint.as_str());
            push_steps(out, &o.path, 0);
            out.push(']');
        },
        None => {},
    }
    out.append(key.xpub.as_str());
    proof {
        assert(final(out)@ =~= old(out)@ + key@.render());
    }
}

fn push_desckey(out: &mut String, dk: &DescriptorKey)
    ensures
        final(out)@ == old(out)@ + dk@.render(),
{
    push_key(out, &dk.key);
    out.push('/');
    push_dec(out, dk.branch);
    out.push('/');
    out.push('*');
    proof {
        assert(final(out)@ =~= old(out)@ + dk@.render());
    }
}

fn push_keylist(out: &mut String, keys: &Vec<DescriptorKey>, n: usize)
    requires
        n <= keys@.len(),
    ensures
        final(out)@ == old(out)@ + keys_render_from(
            Seq::new(keys@.len(), |k: int| keys@[k]@),
            n as int,
        ),
    decreases keys@.len() - n,
{
    let ghost km = Seq::new(keys@.len(), |k: int| keys@[k]@);
    if n < keys.len() {
        out.push(',');
        push_desckey(out, &keys[n]);
        push_keylist(out, keys, n + 1);
        proof {
            assert(km[n as int] == keys@[n as int]@);
            assert(final(out)@ =~= old(out)@ + keys_render_from(km, n as int));
        }
    } else {
        proof {
            assert(old(out)@ + keys_render_from(km, n as int) =~= old(out)@);
        }
    }
}

// ---------------------------------------------------------------------------
// Address derivation, delegated to bdk.
// ---------------------------------------------------------------------------

/// The address that bdk derives from given descriptor text at a given index
/// on a given network, where one exists: a pure function of the three.
pub uninterp spec fn spec_derived_address(
    descriptor: Seq<char>,
    index: u32,
    network: Network,
) -> Option<Seq<char>>;

/// Relies on bdk's descriptor engine: `ExtendedDescriptor::from_str`
/// (miniscript descriptor parsing), `Descriptor::at_derivation_index`,
/// `Descriptor::address`, and the address's canonical display. For fixed
/// descriptor text, index and network the derived address is one fixed
/// value, named `spec_derived_address`; whether derivation succeeds is
/// decided by bdk alone. Only the canonical text of a well-formed descriptor
/// may be passed: miniscript's `at_derivation_index` aborts when a key's
/// derivation suffix after the bracketed origin holds a hardened step, and
/// canonical text ends every key with an unhardened `/index/*`.
#[verifier::external_body]
fn bdk_derive_address(descriptor: &str, index: u32, network: &Network) -> (r: Result<
    String,
    String,
>)
    requires
        exists|d: DescModel| d.wf() && descriptor@ == d.render(),
    ensures
        match r {
            Ok(a) => spec_derived_address(descriptor@, index, *network) == Some(a@),
            Err(_) => spec_derived_address(descriptor@, index, *network) is None,
        },
{
    let n = match network {
        Network::Mainnet => bdk::bitcoin::Network::Bitcoin,
        Network::Testnet => bdk::bitcoin::Network::Testnet,
        Network::Signet => bdk::bitcoin::Network::Signet,
        Network::Regtest => bdk::bitcoin::Network::Regtest,
    };
    let d = <bdk::descriptor::ExtendedDescriptor as std::str::FromStr>::from_str(descriptor)
        .map_err(|e| e.to_string())?;
    let di = d.at_derivation_index(index).map_err(|e| e.to_string())?;
    di.address(n).map(|a| a.to_string()).map_err(|e| e.to_string())
}

// ---------------------------------------------------------------------------
// The public descriptor interface.
// ---------------------------------------------------------------------------

impl ExtendedDescriptor {
    /// Parses canonical descriptor text, with or without a trailing
    /// `#checksum`. A present checksum is verified, not recomputed: a
    /// mismatch is an error.
    pub fn from_str(descriptor: &str) -> (r: Result<ExtendedDescriptor, Error>)
        ensures
            match r {
                Ok(d) => {
                    &&& d@.wf()
                    &&& sp_descriptor_str(descriptor@) == Some(d@)
                    &&& d@.render() == descriptor@.subrange(0, d@.render().len() as int)
                },
                Err(e) => {
                    &&& sp_descriptor_str(descriptor@) is None
                    &&& (e is DescriptorSyntax || e is ChecksumMismatch)
                    &&& (e is ChecksumMismatch <==> (sp_descriptor_body(descriptor@, 0) matches Some((m, j))
                        && j < descriptor@.len() && descriptor@[j] == '#'
                        && checksum::spec_verify(descriptor@) == Some(false)))
                },
            },
    {
        let len = descriptor.unicode_len();
        match p_descriptor_body(descriptor, 0) {
            None => Err(Error::DescriptorSyntax { pos: 0 }),
            Some((d, j)) => {
                if j == len {
                    proof {
                        assert(descriptor@.subrange(0, j as int) =~= descriptor@.subrange(
                            0,
                            d@.render().len() as int,
                        ));
                    }
                    Ok(d)
                } else if descriptor.get_char(j) == '#' {
                    match checksum::verify(descriptor) {
                        Ok(true) => {
                            proof {
                                assert(descriptor@.subrange(0, j as int) =~= descriptor@.subrange(
                                    0,
                                    d@.render().len() as int,
                                ));
                            }
                            Ok(d)
                        },
                        Ok(false) => Err(Error::ChecksumMismatch),
                        Err(_) => Err(Error::DescriptorSyntax { pos: j }),
                    }
                } else {
                    Err(Error::DescriptorSyntax { pos: j })
                }
            },
        }
    }

    /// The canonical descriptor text, without checksum.
    pub fn to_text(&self) -> (r: String)
        requires
            self@.wf(),
        ensures
            r@ == self@.render(),
    {
        proof {
            reveal_strlit("sortedmulti(");
            reveal_strlit("multi(");
            reveal_strlit("sh(wsh(");
            reveal_strlit("wsh(");
            reveal_strlit("sh(");
            assert("sortedmulti("@ =~= lit_sortedmulti());
            assert("multi("@ =~= lit_multi());
            assert("sh(wsh("@ =~= lit_shwsh());
            assert("wsh("@ =~= lit_wsh());
            assert("sh("@ =~= lit_sh());
        }
        let mut out = String::new();
        match self.script {
            ScriptType::P2sh => out.append("sh("),
            ScriptType::P2wsh => out.append("wsh("),
            ScriptType::P2shP2wsh => out.append("sh(wsh("),
        }
        if self.sorted {
            out.append("sortedmulti(");
        } else {
            out.append("multi(");
        }
        push_dec(&mut out, self.threshold);
        push_keylist(&mut out, &self.keys, 0);
        out.push(')');
        match self.script {
            ScriptType::P2sh => out.push(')'),
            ScriptType::P2wsh => out.push(')'),
            ScriptType::P2shP2wsh => {
                out.push(')');
                out.push(')');
            },
        }
        proof {
            assert(out@ =~= self@.render());
        }
        out
    }

    /// The canonical descriptor text followed by `#` and its checksum.
    pub fn to_string(&self) -> (r: String)
        requires
            self@.wf(),
        ensures
            checksum::spec_checksum(self@.render()) is Some,
            r@ == self@.render() + seq!['#'] + checksum::spec_checksum(self@.render()).unwrap(),
    {
        let text = self.to_text();
        proof {
            lemma_alpha_render(self@);
            checksum::lemma_checksum_defined(self@.render());
            checksum::lemma_strip_id(text@);
        }
        match checksum::compute(text.as_str()) {
            Ok(cs) => {
                let mut out = text;
                out.push('#');
                out.append(cs.as_str());
                proof {
                    assert(out@ =~= self@.render() + seq!['#'] + checksum::spec_checksum(
                        self@.render(),
                    ).unwrap());
                }
                out
            },
            Err(_) => {
                proof {
                    assert(false);
                }
                text
            },
        }
    }

    /// Derives the address of this descriptor at `index` on `network`. Fails
    /// with `NetworkMismatch` if any key's embedded tag disagrees with
    /// `network`; any failure inside bdk's derivation is `Derivation`.
    pub fn get_address(&self, index: u32, network: Network) -> (r: Result<String, Error>)
        requires
            self@.wf(),
        ensures
            ({
                let t = self@.render();
                match r {
                    Ok(a) => self@.matches_network(network) && spec_derived_address(
                        t,
                        index,
                        network,
                    ) == Some(a@),
                    Err(e) => {
                        &&& !self@.matches_network(network) ==> e is NetworkMismatch
                        &&& self@.matches_network(network) ==> (e is Derivation
                            && spec_derived_address(t, index, network) is None)
                    },
                }
            }),
    {
        let mut k: usize = 0;
        while k < self.keys.len()
            invariant
                0 <= k <= self.keys@.len(),
                self@.wf(),
                forall|m: int|
                    0 <= m < k ==> (#[trigger] self@.keys[m]).key.matches_network(network),
        decreases self.keys@.len() - k,
        {
            proof {
                assert(self@.keys[k as int] == self.keys@[k as int]@);
                assert(self@.keys[k as int].wf());
            }
            if !self.keys[k].key.matches_network(&network) {
                proof {
                    assert(!self@.keys[k as int].key.matches_network(network));
                }
                return Err(Error::NetworkMismatch);
            }
            k = k + 1;
        }
        let text = self.to_text();
        proof {
            assert(exists|d: DescModel| d.wf() && text@ == d.render()) by {
                let d = self@;
                assert(d.wf() && text@ == d.render());
            }
        }
        match bdk_derive_address(text.as_str(), index, &network) {
            Ok(a) => Ok(a),
            Err(m) => Err(Error::Derivation { message: m }),
        }
    }


    /// Whether every key's embedded network tag is consistent with
    /// `network`.
    pub fn matches_network(&self, network: &Network) -> (r: bool)
        requires
            self@.wf(),
        ensures
            r == self@.matches_network(*network),
    {
        let mut k: usize = 0;
        while k < self.keys.len()
            invariant
                0 <= k <= self.keys@.len(),
                self@.wf(),
                forall|m: int|
                    0 <= m < k ==> (#[trigger] self@.keys[m]).key.matches_network(*network),
            decreases self.keys@.len() - k,
        {
            proof {
                assert(self@.keys[k as int] == self.keys@[k as int]@);
                assert(self@.keys[k as int].wf());
            }
            if !self.keys[k].key.matches_network(network) {
                proof {
                    assert(!self@.keys[k as int].key.matches_network(*network));
                }
                return false;
            }
            k = k + 1;
        }
        true
    }

    /// The position of the first key whose embedded network tag disagrees
    /// with `network`, if any.
    pub fn first_network_mismatch(&self, network: &Network) -> (r: Option<usize>)
        requires
            self@.wf(),
        ensures
            match r {
                Some(k) => {
                    &&& k < self@.keys.len()
                    &&& !self@.keys[k as int].key.matches_network(*network)
                },
                None => self@.matches_network(*network),
            },
    {
        let mut k: usize = 0;
        while k < self.keys.len()
            invariant
                0 <= k <= self.keys@.len(),
                self@.wf(),
                forall|m: int|
                    0 <= m < k ==> (#[trigger] self@.keys[m]).key.matches_network(*network),
            decreases self.keys@.len() - k,
        {
            proof {
                assert(self@.keys[k as int] == self.keys@[k as int]@);
                assert(self@.keys[k as int].wf());
            }
            if !self.keys[k].key.matches_network(network) {
                proof {
                    assert(!self@.keys[k as int].key.matches_network(*network));
                }
                return Some(k);
            }
            k = k + 1;
        }
        None
    }

    /// A deep copy.
    pub fn duplicate(&self) -> (r: ExtendedDescriptor)
        ensures
            r@ == self@,
    {
        let mut keys: Vec<DescriptorKey> = Vec::new();
        let mut k: usize = 0;
        while k < self.keys.len()
            invariant
                0 <= k <= self.keys@.len(),
                keys@.len() == k,
                forall|m: int| 0 <= m < k ==> keys@[m]@ == #[trigger] self.keys@[m]@,
            decreases self.keys@.len() - k,
        {
            keys.push(DescriptorKey {
                key: self.keys[k].key.duplicate(),
                branch: self.keys[k].branch,
            });
            k = k + 1;
        }
        let r = ExtendedDescriptor {
            script: self.script,
            sorted: self.sorted,
            threshold: self.threshold,
            keys,
        };
        proof {
            assert(r@.keys =~= self@.keys);
        }
        r
    }
}

} // verus!
