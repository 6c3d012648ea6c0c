use vstd::prelude::*;

use crate::config::close_lit;
use crate::config::cv_ct;
use crate::config::cv_net;
use crate::config::cv_open;
use crate::config::sp_cv_config;
use crate::config::esc_char;
use crate::config::esc_render;
use crate::config::sp_quoted;
use crate::config::CaravanModel;
use crate::config::mid_ext;
use crate::config::mid_int;
use crate::config::ms_open;
use crate::config::sp_ms_config;
use crate::config::sp_network_at;
use crate::config::MsConfModel;
use crate::chars::dec_render;
use crate::chars::index_limit;
use crate::chars::is_digit;
use crate::chars::lemma_dec_render_parses;
use crate::chars::lemma_run_end_of;
use crate::chars::sp_dec;
use crate::chars::sp_lit;
use crate::descriptor::closer;
use crate::descriptor::keylist_tail;
use crate::descriptor::keys_render_from;
use crate::descriptor::lemma_keys_render_shift;
use crate::descriptor::lit_multi;
use crate::descriptor::lit_sh;
use crate::descriptor::lit_shwsh;
use crate::descriptor::lit_sortedmulti;
use crate::descriptor::lit_wsh;
use crate::descriptor::sp_desckey;
use crate::descriptor::sp_descriptor_body;
use crate::descriptor::sp_keylist;
use crate::descriptor::sp_multi;
use crate::descriptor::DescKeyModel;
use crate::descriptor::DescModel;
use crate::descriptor::ScriptType;
use crate::keys::lemma_steps_render_shift;
use crate::keys::sp_key;
use crate::keys::sp_origin;
use crate::keys::sp_steps;
use crate::keys::steps_render_from;
use crate::keys::steps_tail;
use crate::keys::ChildStep;
use crate::keys::KeyModel;
use crate::keys::OriginModel;
use crate::network::spec_network_name;
use crate::network::Network;

verus! {

// ---------------------------------------------------------------------------
// The rendering direction of the grammar round trip: canonical text embedded
// in a larger text parses back to exactly the value it was rendered from.
// ---------------------------------------------------------------------------

/// `t` stands at position `i` of `s`.
pub open spec fn embeds(s: Seq<char>, i: int, t: Seq<char>) -> bool {
    &&& 0 <= i
    &&& i + t.len() <= s.len()
    &&& s.subrange(i, i + t.len()) == t
}

proof fn lemma_embeds_index(s: Seq<char>, i: int, t: Seq<char>)
    requires
        embeds(s, i, t),
    ensures
        forall|k: int| 0 <= k < t.len() ==> s[i + k] == #[trigger] t[k],
{
    assert forall|k: int| 0 <= k < t.len() implies s[i + k] == #[trigger] t[k] by {
        assert(t[k] == s.subrange(i, i + t.len())[k]);
    }
}

proof fn lemma_embeds_split(s: Seq<char>, i: int, a: Seq<char>, b: Seq<char>)
    requires
        embeds(s, i, a + b),
    ensures
        embeds(s, i, a),
        embeds(s, i + a.len(), b),
{
    lemma_embeds_index(s, i, a + b);
    assert forall|k: int| 0 <= k < a.len() implies s.subrange(i, i + a.len() as int)[k] == a[k] by {
        assert((a + b)[k] == a[k]);
        assert(s[i + k] == (a + b)[k]);
    }
    assert(s.subrange(i, i + a.len()) =~= a);
    assert forall|k: int|
        0 <= k < b.len() implies s.subrange(
        i + a.len(),
        i + a.len() + b.len(),
    )[k] == b[k] by {
        assert((a + b)[a.len() + k] == b[k]);
        assert(s[i + a.len() + k] == (a + b)[a.len() + k]);
    }
    assert(s.subrange(i + a.len(), i + a.len() + b.len()) =~= b);
}

proof fn lemma_split3(s: Seq<char>, i: int, a: Seq<char>, b: Seq<char>, c: Seq<char>)
    requires
        embeds(s, i, a + b + c),
    ensures
        embeds(s, i, a),
        embeds(s, i + a.len(), b),
        embeds(s, i + a.len() + b.len(), c),
{
    assert(a + b + c =~= a + (b + c));
    lemma_embeds_split(s, i, a, b + c);
    lemma_embeds_split(s, i + a.len(), b, c);
}

proof fn lemma_split4(s: Seq<char>, i: int, a: Seq<char>, b: Seq<char>, c: Seq<char>, d: Seq<char>)
    requires
        embeds(s, i, a + b + c + d),
    ensures
        embeds(s, i, a),
        embeds(s, i + a.len(), b),
        embeds(s, i + a.len() + b.len(), c),
        embeds(s, i + a.len() + b.len() + c.len(), d),
{
    assert(a + b + c + d =~= (a + b + c) + d);
    lemma_embeds_split(s, i, a + b + c, d);
    lemma_split3(s, i, a, b, c);
}

proof fn lemma_embeds_char(s: Seq<char>, i: int, c: char)
    requires
        embeds(s, i, seq![c]),
    ensures
        0 <= i < s.len() && s[i] == c,
{
    assert(s.subrange(i, i + 1)[0] == s[i]);
    assert(seq![c][0] == c);
}

proof fn lemma_embeds_char2(s: Seq<char>, i: int, c1: char, c2: char)
    requires
        embeds(s, i, seq![c1, c2]),
    ensures
        0 <= i && i + 1 < s.len() && s[i] == c1 && s[i + 1] == c2,
{
    assert(s.subrange(i, i + 2)[0] == s[i]);
    assert(s.subrange(i, i + 2)[1] == s[i + 1]);
    assert(seq![c1, c2][0] == c1);
    assert(seq![c1, c2][1] == c2);
}

proof fn lemma_lit_parses(s: Seq<char>, i: int, l: Seq<char>)
    requires
        embeds(s, i, l),
    ensures
        sp_lit(s, i, l) == Some(i + l.len() as int),
{
}

proof fn lemma_dec_parses(s: Seq<char>, i: int, n: u32)
    requires
        n < index_limit(),
        embeds(s, i, dec_render(n as int)),
        i + dec_render(n as int).len() == s.len() || !is_digit(s[i + dec_render(n as int).len()]),
    ensures
        sp_dec(s, i) == Some((n, i + dec_render(n as int).len())),
{
    lemma_dec_render_parses(s, i, n as int);
}

proof fn lemma_steps_parse(s: Seq<char>, i: int, p: Seq<ChildStep>)
    requires
        forall|k: int| 0 <= k < p.len() ==> (#[trigger] p[k]).wf(),
        embeds(s, i, steps_render_from(p, 0)),
        i + steps_render_from(p, 0).len() < s.len(),
        ({
            let t = s[i + steps_render_from(p, 0).len()];
            &&& t != '/'
            &&& !is_digit(t)
            &&& t != '\''
            &&& t != 'h'
        }),
    ensures
        sp_steps(s, i) == Some((p, i + steps_render_from(p, 0).len())),
    decreases p.len(),
{
    let full = steps_render_from(p, 0);
    let l = full.len() as int;
    if p.len() == 0 {
        assert(full =~= Seq::<char>::empty());
        assert(s[i] != '/');
        assert(p =~= Seq::<ChildStep>::empty());
    } else {
        let st = p[0];
        let tail = steps_tail(p);
        lemma_steps_render_shift(p);
        lemma_split3(s, i, seq!['/'], st.render(), steps_render_from(tail, 0));
        lemma_embeds_char(s, i, '/');
        let dlen = dec_render(st.index as int).len() as int;
        let rest_start = i + 1 + st.render().len() as int;
        // The character right after this step's digits.
        if st.hardened {
            assert(st.render() =~= dec_render(st.index as int) + seq![st.marker()]);
            lemma_embeds_split(s, i + 1, dec_render(st.index as int), seq![st.marker()]);
            lemma_embeds_char(s, i + 1 + dlen, st.marker());
            assert(!is_digit(st.marker()));
            lemma_dec_parses(s, i + 1, st.index);
        } else {
            assert(st.render() == dec_render(st.index as int));
            if tail.len() == 0 {
                assert(steps_render_from(tail, 0) =~= Seq::<char>::empty());
                assert(i + 1 + dlen == i + l);
                lemma_dec_parses(s, i + 1, st.index);
            } else {
                assert(steps_render_from(tail, 0)[0] == '/');
                assert(s[i + 1 + dlen] == steps_render_from(tail, 0)[0]) by {
                    lemma_embeds_index(s, i + 1 + dlen, steps_render_from(tail, 0));
                }
                lemma_dec_parses(s, i + 1, st.index);
            }
        }
        let j2 = if st.hardened {
            i + 2 + dlen
        } else {
            i + 1 + dlen
        };
        assert(j2 == rest_start);
        if !st.hardened {
            // The parser must not take a hardened marker here.
            if j2 < s.len() && (s[j2] == '\'' || s[j2] == 'h') {
                if tail.len() == 0 {
                    assert(s[i + l] != '\'');
                    assert(false);
                } else {
                    assert(steps_render_from(tail, 0)[0] == '/');
                    assert(s[rest_start] == steps_render_from(tail, 0)[0]) by {
                        lemma_embeds_index(s, rest_start, steps_render_from(tail, 0));
                    }
                    assert(false);
                }
            }
        }
        assert(forall|k: int| 0 <= k < tail.len() ==> tail[k] == #[trigger] p[k + 1]);
        lemma_steps_parse(s, rest_start, tail);
        assert(seq![st] + tail =~= p);
    }
}

proof fn lemma_origin_parse(s: Seq<char>, i: int, o: OriginModel)
    requires
        o.wf(),
        embeds(s, i, o.render()),
        i + o.render().len() < s.len(),
    ensures
        sp_origin(s, i) == Some((o, i + o.render().len())),
{
    let stepslen = steps_render_from(o.path, 0).len() as int;
    lemma_split4(s, i, seq!['['], o.fingerprint, steps_render_from(o.path, 0), seq![']']);
    lemma_embeds_char(s, i, '[');
    lemma_embeds_index(s, i + 1, o.fingerprint);
    lemma_embeds_char(s, i + 9 + stepslen, ']');
    assert(!is_digit(']') && ']' != '/' && ']' != '\'' && ']' != 'h');
    lemma_steps_parse(s, i + 9, o.path);
    assert forall|k: int| i + 1 <= k < i + 9 implies crate::chars::is_hex(#[trigger] s[k]) by {
        assert(s[(i + 1) + (k - (i + 1))] == o.fingerprint[k - (i + 1)]);
        assert(crate::chars::is_hex(o.fingerprint[k - (i + 1)]));
    }
    assert(s.subrange(i + 1, i + 9) =~= o.fingerprint);
}

proof fn lemma_key_parse(s: Seq<char>, i: int, key: KeyModel)
    requires
        key.wf(),
        embeds(s, i, key.render()),
        i + key.render().len() < s.len(),
        !crate::chars::is_b58(s[i + key.render().len()]),
    ensures
        sp_key(s, i) == Some((key, i + key.render().len())),
{
    let b58 = |c: char| crate::chars::is_b58(c);
    let olen = (match key.origin {
        Some(o) => o.render().len(),
        None => 0,
    }) as int;
    let j = i + olen;
    let e = i + key.render().len() as int;
    match key.origin {
        Some(o) => {
            lemma_embeds_split(s, i, o.render(), key.xpub);
            assert(o.render()[0] == '[');
            assert(s[i + 0] == o.render()[0]) by {
                lemma_embeds_index(s, i, o.render());
            }
            lemma_origin_parse(s, i, o);
        },
        None => {
            assert(key.render() =~= key.xpub);
        },
    }
    assert(embeds(s, j, key.xpub));
    lemma_embeds_index(s, j, key.xpub);
    assert forall|k: int| j <= k < e implies crate::chars::is_b58(#[trigger] s[k]) by {
        assert(s[j + (k - j)] == key.xpub[k - j]);
        assert(crate::chars::is_b58(key.xpub[k - j]));
    }
    lemma_run_end_of(s, j, e, b58);
    match key.origin {
        Some(o) => {},
        None => {
            assert(s[i + 0] == key.xpub[0]);
            assert(s[i] != '[');
        },
    }
    assert(s[j + 0] == key.xpub[0] && s[j + 1] == key.xpub[1] && s[j + 2] == key.xpub[2] && s[j
        + 3] == key.xpub[3]);
    assert(s.subrange(j, e) =~= key.xpub);
}

proof fn lemma_desckey_parse(s: Seq<char>, i: int, dk: DescKeyModel)
    requires
        dk.wf(),
        embeds(s, i, dk.render()),
    ensures
        sp_desckey(s, i) == Some((dk, i + dk.render().len())),
{
    let klen = dk.key.render().len() as int;
    let dlen = dec_render(dk.branch as int).len() as int;
    lemma_split4(
        s,
        i,
        dk.key.render(),
        seq!['/'],
        dec_render(dk.branch as int),
        seq!['/', '*'],
    );
    lemma_embeds_char(s, i + klen, '/');
    lemma_embeds_char2(s, i + klen + 1 + dlen, '/', '*');
    assert(!crate::chars::is_b58('/'));
    lemma_key_parse(s, i, dk.key);
    assert(!is_digit('/'));
    lemma_dec_parses(s, i + klen + 1, dk.branch);
}

proof fn lemma_keylist_parse(s: Seq<char>, i: int, keys: Seq<DescKeyModel>)
    requires
        forall|k: int| 0 <= k < keys.len() ==> (#[trigger] keys[k]).wf(),
        embeds(s, i, keys_render_from(keys, 0)),
        i + keys_render_from(keys, 0).len() < s.len(),
        s[i + keys_render_from(keys, 0).len()] != ',',
    ensures
        sp_keylist(s, i) == Some((keys, i + keys_render_from(keys, 0).len())),
    decreases keys.len(),
{
    let full = keys_render_from(keys, 0);
    if keys.len() == 0 {
        assert(full =~= Seq::<char>::empty());
        assert(s[i] != ',');
        assert(keys =~= Seq::<DescKeyModel>::empty());
    } else {
        let dk = keys[0];
        let tail = keylist_tail(keys);
        lemma_keys_render_shift(keys);
        lemma_split3(s, i, seq![','], dk.render(), keys_render_from(tail, 0));
        lemma_embeds_char(s, i, ',');
        lemma_desckey_parse(s, i + 1, dk);
        assert(forall|k: int| 0 <= k < tail.len() ==> tail[k] == #[trigger] keys[k + 1]);
        lemma_keylist_parse(s, i + 1 + dk.render().len(), tail);
        assert(seq![dk] + tail =~= keys);
    }
}

proof fn lemma_multi_parse(s: Seq<char>, i: int, sorted: bool, t: u32, keys: Seq<DescKeyModel>)
    requires
        forall|k: int| 0 <= k < keys.len() ==> (#[trigger] keys[k]).wf(),
        1 <= t <= keys.len(),
        t < index_limit(),
        embeds(
            s,
            i,
            (if sorted {
                lit_sortedmulti()
            } else {
                lit_multi()
            }) + dec_render(t as int) + keys_render_from(keys, 0) + seq![')'],
        ),
    ensures
        sp_multi(s, i) == Some(
            (
                (sorted, t, keys),
                i + ((if sorted {
                    lit_sortedmulti()
                } else {
                    lit_multi()
                }) + dec_render(t as int) + keys_render_from(keys, 0) + seq![')']).len(),
            ),
        ),
{
    let front = if sorted {
        lit_sortedmulti()
    } else {
        lit_multi()
    };
    let flen = front.len() as int;
    let dlen = dec_render(t as int).len() as int;
    let klen = keys_render_from(keys, 0).len() as int;
    lemma_split4(s, i, front, dec_render(t as int), keys_render_from(keys, 0), seq![')']);
    lemma_embeds_index(s, i, front);
    lemma_embeds_char(s, i + flen + dlen + klen, ')');
    lemma_lit_parses(s, i, front);
    if !sorted {
        if sp_lit(s, i, lit_sortedmulti()) is Some {
            assert(s.subrange(i, i + lit_sortedmulti().len() as int)[0] == s[i]);
            assert(s.subrange(i, i + lit_sortedmulti().len() as int)[0] == lit_sortedmulti()[0]);
            assert(s[i + 0] == front[0]);
            assert(false);
        }
    }
    // The first key's comma stops the threshold digits; the closing
    // parenthesis stops the key list.
    lemma_keys_render_shift(keys);
    assert(keys_render_from(keys, 0)[0] == ',');
    assert(s[(i + flen + dlen) + 0] == keys_render_from(keys, 0)[0]) by {
        lemma_embeds_index(s, i + flen + dlen, keys_render_from(keys, 0));
    }
    assert(!is_digit(','));
    lemma_dec_parses(s, i + flen, t);
    lemma_keylist_parse(s, i + flen + dlen, keys);
}

/// The rendering direction of the descriptor round trip: the canonical text
/// of a well-formed descriptor, embedded anywhere, parses back to exactly
/// that descriptor.
pub proof fn lemma_descriptor_parse_render(s: Seq<char>, i: int, d: DescModel)
    requires
        d.wf(),
        d.threshold < index_limit(),
        embeds(s, i, d.render()),
    ensures
        sp_descriptor_body(s, i) == Some((d, i + d.render().len())),
{
    let front = match d.script {
        ScriptType::P2sh => lit_sh(),
        ScriptType::P2wsh => lit_wsh(),
        ScriptType::P2shP2wsh => lit_shwsh(),
    };
    let flen = front.len() as int;
    let mlen = d.render_multi().len() as int;
    assert(d.render() == front + d.render_multi() + closer(d.script));
    lemma_split3(s, i, front, d.render_multi(), closer(d.script));
    lemma_embeds_index(s, i, front);
    lemma_embeds_index(s, i + flen, d.render_multi());
    // The multi expression begins with `s` (sortedmulti) or `m` (multi).
    let mfront = if d.sorted {
        lit_sortedmulti()
    } else {
        lit_multi()
    };
    assert(d.render_multi()[0] == mfront[0]) by {
        assert(d.render_multi() == mfront + dec_render(d.threshold as int) + keys_render_from(
            d.keys,
            0,
        ) + seq![')']);
    }
    lemma_multi_parse(s, i + flen, d.sorted, d.threshold, d.keys);
    lemma_lit_parses(s, i, front);
    match d.script {
        ScriptType::P2sh => {
            if sp_lit(s, i, lit_shwsh()) is Some {
                assert(s.subrange(i, i + lit_shwsh().len() as int)[3] == s[i + 3]);
                assert(s.subrange(i, i + lit_shwsh().len() as int)[3] == lit_shwsh()[3]);
                assert(s[i + flen + 0] == d.render_multi()[0]);
                assert(false);
            }
            if sp_lit(s, i, lit_wsh()) is Some {
                assert(s.subrange(i, i + lit_wsh().len() as int)[0] == s[i]);
                assert(s.subrange(i, i + lit_wsh().len() as int)[0] == lit_wsh()[0]);
                assert(s[i + 0] == front[0]);
                assert(false);
            }
            assert(closer(d.script) =~= seq![')']);
            lemma_embeds_char(s, i + flen + mlen, ')');
        },
        ScriptType::P2wsh => {
            if sp_lit(s, i, lit_shwsh()) is Some {
                assert(s.subrange(i, i + lit_shwsh().len() as int)[0] == s[i]);
                assert(s.subrange(i, i + lit_shwsh().len() as int)[0] == lit_shwsh()[0]);
                assert(s[i + 0] == front[0]);
                assert(false);
            }
            assert(closer(d.script) =~= seq![')']);
            lemma_embeds_char(s, i + flen + mlen, ')');
        },
        ScriptType::P2shP2wsh => {
            assert(closer(d.script) =~= seq![')', ')']);
            lemma_embeds_char2(s, i + flen + mlen, ')', ')');
        },
    }
}

// ---------------------------------------------------------------------------
// The configuration round trip.
// ---------------------------------------------------------------------------

proof fn lemma_split7(
    s: Seq<char>,
    i: int,
    a: Seq<char>,
    b: Seq<char>,
    c: Seq<char>,
    d: Seq<char>,
    e: Seq<char>,
    f: Seq<char>,
    g: Seq<char>,
)
    requires
        embeds(s, i, a + b + c + d + e + f + g),
    ensures
        embeds(s, i, a),
        embeds(s, i + a.len(), b),
        embeds(s, i + a.len() + b.len(), c),
        embeds(s, i + a.len() + b.len() + c.len(), d),
        embeds(s, i + a.len() + b.len() + c.len() + d.len(), e),
        embeds(s, i + a.len() + b.len() + c.len() + d.len() + e.len(), f),
        embeds(s, i + a.len() + b.len() + c.len() + d.len() + e.len() + f.len(), g),
{
    lemma_embeds_split(s, i, a + b + c + d + e + f, g);
    lemma_embeds_split(s, i, a + b + c + d + e, f);
    lemma_embeds_split(s, i, a + b + c + d, e);
    lemma_split4(s, i, a, b, c, d);
}

proof fn lemma_network_parses(s: Seq<char>, i: int, n: Network)
    requires
        embeds(s, i, spec_network_name(n)),
    ensures
        sp_network_at(s, i) == Some((n, i + spec_network_name(n).len())),
{
    lemma_lit_parses(s, i, spec_network_name(n));
    lemma_embeds_index(s, i, spec_network_name(n));
    assert(s[i + 0] == spec_network_name(n)[0]);
    match n {
        Network::Mainnet => {},
        Network::Testnet => {
            if sp_lit(s, i, spec_network_name(Network::Mainnet)) is Some {
                assert(s.subrange(i, i + spec_network_name(Network::Mainnet).len() as int)[0]
                    == s[i]);
                assert(s.subrange(i, i + spec_network_name(Network::Mainnet).len() as int)[0]
                    == spec_network_name(Network::Mainnet)[0]);
                assert(false);
            }
        },
        Network::Signet => {
            if sp_lit(s, i, spec_network_name(Network::Mainnet)) is Some {
                assert(s.subrange(i, i + spec_network_name(Network::Mainnet).len() as int)[0]
                    == s[i]);
                assert(s.subrange(i, i + spec_network_name(Network::Mainnet).len() as int)[0]
                    == spec_network_name(Network::Mainnet)[0]);
                assert(false);
            }
            if sp_lit(s, i, spec_network_name(Network::Testnet)) is Some {
                assert(s.subrange(i, i + spec_network_name(Network::Testnet).len() as int)[0]
                    == s[i]);
                assert(s.subrange(i, i + spec_network_name(Network::Testnet).len() as int)[0]
                    == spec_network_name(Network::Testnet)[0]);
                assert(false);
            }
        },
        Network::Regtest => {
            if sp_lit(s, i, spec_network_name(Network::Mainnet)) is Some {
                assert(s.subrange(i, i + spec_network_name(Network::Mainnet).len() as int)[0]
                    == s[i]);
                assert(s.subrange(i, i + spec_network_name(Network::Mainnet).len() as int)[0]
                    == spec_network_name(Network::Mainnet)[0]);
                assert(false);
            }
            if sp_lit(s, i, spec_network_name(Network::Testnet)) is Some {
                assert(s.subrange(i, i + spec_network_name(Network::Testnet).len() as int)[0]
                    == s[i]);
                assert(s.subrange(i, i + spec_network_name(Network::Testnet).len() as int)[0]
                    == spec_network_name(Network::Testnet)[0]);
                assert(false);
            }
            if sp_lit(s, i, spec_network_name(Network::Signet)) is Some {
                assert(s.subrange(i, i + spec_network_name(Network::Signet).len() as int)[0]
                    == s[i]);
                assert(s.subrange(i, i + spec_network_name(Network::Signet).len() as int)[0]
                    == spec_network_name(Network::Signet)[0]);
                assert(false);
            }
        },
    }
}


proof fn lemma_split5(
    s: Seq<char>,
    i: int,
    a: Seq<char>,
    b: Seq<char>,
    c: Seq<char>,
    d: Seq<char>,
    e: Seq<char>,
)
    requires
        embeds(s, i, a + b + c + d + e),
    ensures
        embeds(s, i, a),
        embeds(s, i + a.len(), b),
        embeds(s, i + a.len() + b.len(), c),
        embeds(s, i + a.len() + b.len() + c.len(), d),
        embeds(s, i + a.len() + b.len() + c.len() + d.len(), e),
{
    lemma_embeds_split(s, i, a + b + c + d, e);
    lemma_split4(s, i, a, b, c, d);
}

proof fn lemma_split6(
    s: Seq<char>,
    i: int,
    a: Seq<char>,
    b: Seq<char>,
    c: Seq<char>,
    d: Seq<char>,
    e: Seq<char>,
    f: Seq<char>,
)
    requires
        embeds(s, i, a + b + c + d + e + f),
    ensures
        embeds(s, i, a),
        embeds(s, i + a.len(), b),
        embeds(s, i + a.len() + b.len(), c),
        embeds(s, i + a.len() + b.len() + c.len(), d),
        embeds(s, i + a.len() + b.len() + c.len() + d.len(), e),
        embeds(s, i + a.len() + b.len() + c.len() + d.len() + e.len(), f),
{
    lemma_embeds_split(s, i, a + b + c + d + e, f);
    lemma_split5(s, i, a, b, c, d, e);
}

proof fn lemma_quoted_parses(s: Seq<char>, i: int, t: Seq<char>)
    requires
        embeds(s, i, esc_render(t)),
        i + esc_render(t).len() < s.len(),
        s[i + esc_render(t).len()] == '"',
    ensures
        sp_quoted(s, i) == Some((t, i + esc_render(t).len())),
    decreases t.len(),
{
    if t.len() == 0 {
        assert(esc_render(t) =~= Seq::<char>::empty());
        assert(s[i] == '"');
        assert(t =~= Seq::<char>::empty());
    } else {
        let c = t[0];
        let tail = t.drop_first();
        assert(esc_render(t) == esc_char(c) + esc_render(tail));
        lemma_embeds_split(s, i, esc_char(c), esc_render(tail));
        if c == '"' || c == '\\' {
            assert(esc_char(c) =~= seq!['\\', c]);
            lemma_embeds_char2(s, i, '\\', c);
            lemma_quoted_parses(s, i + 2, tail);
            assert(seq![c] + tail =~= t);
        } else {
            assert(esc_char(c) =~= seq![c]);
            lemma_embeds_char(s, i, c);
            lemma_quoted_parses(s, i + 1, tail);
            assert(seq![c] + tail =~= t);
        }
    }
}

// The minimal configuration, staged: the embedded pieces, then what each
// parser returns on them, then the assembled parse.

#[verifier::rlimit(100)]
proof fn lemma_ms_embeds(m: MsConfModel, pretty: bool)
    ensures
        ({
            let s = m.render(pretty);
            let i1 = ms_open(pretty).len() as int;
            let i2 = i1 + spec_network_name(m.network).len() as int;
            let i3 = i2 + mid_ext(pretty).len() as int;
            let i4 = i3 + m.external.render().len() as int;
            let i5 = i4 + mid_int(pretty).len() as int;
            let i6 = i5 + m.internal.render().len() as int;
            &&& s.len() == i6 + close_lit(pretty).len()
            &&& s.len() >= 2 && (s[1] == '\n') == pretty
            &&& embeds(s, 0, ms_open(pretty))
            &&& embeds(s, i1, spec_network_name(m.network))
            &&& embeds(s, i2, mid_ext(pretty))
            &&& embeds(s, i3, m.external.render())
            &&& embeds(s, i4, mid_int(pretty))
            &&& embeds(s, i5, m.internal.render())
            &&& embeds(s, i6, close_lit(pretty))
        }),
{
    let s = m.render(pretty);
    assert(embeds(s, 0, s)) by {
        assert(s.subrange(0, s.len() as int) =~= s);
    }
    lemma_split7(
        s,
        0,
        ms_open(pretty),
        spec_network_name(m.network),
        mid_ext(pretty),
        m.external.render(),
        mid_int(pretty),
        m.internal.render(),
        close_lit(pretty),
    );
    lemma_embeds_index(s, 0, ms_open(pretty));
    assert(s[1] == ms_open(pretty)[1]);
}

#[verifier::rlimit(100)]
proof fn lemma_ms_facts(m: MsConfModel, pretty: bool)
    requires
        m.wf(),
        m.external.threshold < index_limit(),
        m.internal.threshold < index_limit(),
    ensures
        ({
            let s = m.render(pretty);
            let i1 = ms_open(pretty).len() as int;
            let i2 = i1 + spec_network_name(m.network).len() as int;
            let i3 = i2 + mid_ext(pretty).len() as int;
            let i4 = i3 + m.external.render().len() as int;
            let i5 = i4 + mid_int(pretty).len() as int;
            let i6 = i5 + m.internal.render().len() as int;
            &&& s.len() >= 2 && (s[1] == '\n') == pretty
            &&& sp_lit(s, 0, ms_open(pretty)) == Some(i1)
            &&& sp_network_at(s, i1) == Some((m.network, i2))
            &&& sp_lit(s, i2, mid_ext(pretty)) == Some(i3)
            &&& sp_descriptor_body(s, i3) == Some((m.external, i4))
            &&& sp_lit(s, i4, mid_int(pretty)) == Some(i5)
            &&& sp_descriptor_body(s, i5) == Some((m.internal, i6))
            &&& sp_lit(s, i6, close_lit(pretty)) == Some(s.len() as int)
        }),
{
    let s = m.render(pretty);
    let i1 = ms_open(pretty).len() as int;
    let i2 = i1 + spec_network_name(m.network).len() as int;
    let i3 = i2 + mid_ext(pretty).len() as int;
    let i4 = i3 + m.external.render().len() as int;
    let i5 = i4 + mid_int(pretty).len() as int;
    let i6 = i5 + m.internal.render().len() as int;
    lemma_ms_embeds(m, pretty);
    lemma_lit_parses(s, 0, ms_open(pretty));
    lemma_network_parses(s, i1, m.network);
    lemma_lit_parses(s, i2, mid_ext(pretty));
    lemma_descriptor_parse_render(s, i3, m.external);
    lemma_lit_parses(s, i4, mid_int(pretty));
    lemma_descriptor_parse_render(s, i5, m.internal);
    lemma_lit_parses(s, i6, close_lit(pretty));
}

#[verifier::rlimit(100)]
proof fn lemma_ms_knit(
    s: Seq<char>,
    network: Network,
    external: DescModel,
    internal: DescModel,
    pretty: bool,
    i1: int,
    i2: int,
    i3: int,
    i4: int,
    i5: int,
    i6: int,
)
    requires
        s.len() >= 2,
        (s[1] == '\n') == pretty,
        sp_lit(s, 0, ms_open(pretty)) == Some(i1),
        sp_network_at(s, i1) == Some((network, i2)),
        sp_lit(s, i2, mid_ext(pretty)) == Some(i3),
        sp_descriptor_body(s, i3) == Some((external, i4)),
        sp_lit(s, i4, mid_int(pretty)) == Some(i5),
        sp_descriptor_body(s, i5) == Some((internal, i6)),
        sp_lit(s, i6, close_lit(pretty)) == Some(s.len() as int),
    ensures
        sp_ms_config(s) == Some(MsConfModel { network, external, internal }),
{
}

/// The minimal-configuration round trip: the canonical text of a
/// well-formed configuration, in either form, parses back to exactly that
/// configuration.
pub proof fn lemma_ms_config_round_trip(m: MsConfModel, pretty: bool)
    requires
        m.wf(),
        m.external.threshold < index_limit(),
        m.internal.threshold < index_limit(),
    ensures
        sp_ms_config(m.render(pretty)) == Some(m),
{
    let s = m.render(pretty);
    let i1 = ms_open(pretty).len() as int;
    let i2 = i1 + spec_network_name(m.network).len() as int;
    let i3 = i2 + mid_ext(pretty).len() as int;
    let i4 = i3 + m.external.render().len() as int;
    let i5 = i4 + mid_int(pretty).len() as int;
    let i6 = i5 + m.internal.render().len() as int;
    lemma_ms_facts(m, pretty);
    lemma_ms_knit(s, m.network, m.external, m.internal, pretty, i1, i2, i3, i4, i5, i6);
}

// The named configuration, staged the same way over its front and back
// halves.

#[verifier::rlimit(100)]
proof fn lemma_cv_embeds_front(m: CaravanModel, pretty: bool)
    ensures
        ({
            let s = m.render(pretty);
            let i1 = cv_open(pretty).len() as int;
            let i2 = i1 + esc_render(m.name).len() as int;
            let i3 = i2 + cv_net(pretty).len() as int;
            let i4 = i3 + spec_network_name(m.network).len() as int;
            let i5 = i4 + mid_ext(pretty).len() as int;
            let i6 = i5 + m.external.render().len() as int;
            &&& m.render_front(pretty).len() == i6
            &&& s.len() >= 2 && (s[1] == '\n') == pretty
            &&& embeds(s, 0, cv_open(pretty))
            &&& embeds(s, i1, esc_render(m.name))
            &&& embeds(s, i2, cv_net(pretty))
            &&& embeds(s, i3, spec_network_name(m.network))
            &&& embeds(s, i4, mid_ext(pretty))
            &&& embeds(s, i5, m.external.render())
            &&& i6 < s.len() && s[i2] == '"'
        }),
{
    let s = m.render(pretty);
    assert(embeds(s, 0, s)) by {
        assert(s.subrange(0, s.len() as int) =~= s);
    }
    lemma_embeds_split(s, 0, m.render_front(pretty), m.render_back(pretty));
    lemma_split6(
        s,
        0,
        cv_open(pretty),
        esc_render(m.name),
        cv_net(pretty),
        spec_network_name(m.network),
        mid_ext(pretty),
        m.external.render(),
    );
    lemma_embeds_index(s, 0, cv_open(pretty));
    assert(s[1] == cv_open(pretty)[1]);
    let i2 = cv_open(pretty).len() as int + esc_render(m.name).len() as int;
    assert(cv_net(pretty)[0] == '"');
    assert(s[i2 + 0] == cv_net(pretty)[0]) by {
        lemma_embeds_index(s, i2, cv_net(pretty));
    }
}

#[verifier::rlimit(100)]
proof fn lemma_cv_embeds_back(m: CaravanModel, pretty: bool)
    ensures
        ({
            let s = m.render(pretty);
            let i6 = m.render_front(pretty).len() as int;
            let i7 = i6 + mid_int(pretty).len() as int;
            let i8 = i7 + m.internal.render().len() as int;
            let i9 = i8 + cv_ct(pretty).len() as int;
            let i10 = i9 + esc_render(m.client_type).len() as int;
            &&& s.len() == i10 + close_lit(pretty).len()
            &&& embeds(s, i6, mid_int(pretty))
            &&& embeds(s, i7, m.internal.render())
            &&& embeds(s, i8, cv_ct(pretty))
            &&& embeds(s, i9, esc_render(m.client_type))
            &&& embeds(s, i10, close_lit(pretty))
            &&& i10 < s.len() && s[i10] == '"'
        }),
{
    let s = m.render(pretty);
    assert(embeds(s, 0, s)) by {
        assert(s.subrange(0, s.len() as int) =~= s);
    }
    lemma_embeds_split(s, 0, m.render_front(pretty), m.render_back(pretty));
    let i6 = m.render_front(pretty).len() as int;
    lemma_split5(
        s,
        i6,
        mid_int(pretty),
        m.internal.render(),
        cv_ct(pretty),
        esc_render(m.client_type),
        close_lit(pretty),
    );
    let i10 = i6 + mid_int(pretty).len() + m.internal.render().len() + cv_ct(pretty).len()
        + esc_render(m.client_type).len();
    assert(close_lit(pretty)[0] == '"');
    assert(s[i10 + 0] == close_lit(pretty)[0]) by {
        lemma_embeds_index(s, i10, close_lit(pretty));
    }
}

#[verifier::rlimit(100)]
proof fn lemma_cv_facts_front(m: CaravanModel, pretty: bool)
    requires
        m.wf(),
        m.external.threshold < index_limit(),
    ensures
        ({
            let s = m.render(pretty);
            let i1 = cv_open(pretty).len() as int;
            let i2 = i1 + esc_render(m.name).len() as int;
            let i3 = i2 + cv_net(pretty).len() as int;
            let i4 = i3 + spec_network_name(m.network).len() as int;
            let i5 = i4 + mid_ext(pretty).len() as int;
            let i6 = i5 + m.external.render().len() as int;
            &&& s.len() >= 2 && (s[1] == '\n') == pretty
            &&& sp_lit(s, 0, cv_open(pretty)) == Some(i1)
            &&& sp_quoted(s, i1) == Some((m.name, i2))
            &&& sp_lit(s, i2, cv_net(pretty)) == Some(i3)
            &&& sp_network_at(s, i3) == Some((m.network, i4))
            &&& sp_lit(s, i4, mid_ext(pretty)) == Some(i5)
            &&& sp_descriptor_body(s, i5) == Some((m.external, i6))
        }),
{
    let s = m.render(pretty);
    let i1 = cv_open(pretty).len() as int;
    let i2 = i1 + esc_render(m.name).len() as int;
    let i3 = i2 + cv_net(pretty).len() as int;
    let i4 = i3 + spec_network_name(m.network).len() as int;
    let i5 = i4 + mid_ext(pretty).len() as int;
    lemma_cv_embeds_front(m, pretty);
    lemma_lit_parses(s, 0, cv_open(pretty));
    lemma_quoted_parses(s, i1, m.name);
    lemma_lit_parses(s, i2, cv_net(pretty));
    lemma_network_parses(s, i3, m.network);
    lemma_lit_parses(s, i4, mid_ext(pretty));
    lemma_descriptor_parse_render(s, i5, m.external);
}

#[verifier::rlimit(100)]
proof fn lemma_cv_facts_back(m: CaravanModel, pretty: bool)
    requires
        m.wf(),
        m.internal.threshold < index_limit(),
    ensures
        ({
            let s = m.render(pretty);
            let i6 = m.render_front(pretty).len() as int;
            let i7 = i6 + mid_int(pretty).len() as int;
            let i8 = i7 + m.internal.render().len() as int;
            let i9 = i8 + cv_ct(pretty).len() as int;
            let i10 = i9 + esc_render(m.client_type).len() as int;
            &&& sp_lit(s, i6, mid_int(pretty)) == Some(i7)
            &&& sp_descriptor_body(s, i7) == Some((m.internal, i8))
            &&& sp_lit(s, i8, cv_ct(pretty)) == Some(i9)
            &&& sp_quoted(s, i9) == Some((m.client_type, i10))
            &&& sp_lit(s, i10, close_lit(pretty)) == Some(s.len() as int)
        }),
{
    let s = m.render(pretty);
    let i6 = m.render_front(pretty).len() as int;
    let i7 = i6 + mid_int(pretty).len() as int;
    let i8 = i7 + m.internal.render().len() as int;
    let i9 = i8 + cv_ct(pretty).len() as int;
    let i10 = i9 + esc_render(m.client_type).len() as int;
    lemma_cv_embeds_back(m, pretty);
    lemma_lit_parses(s, i6, mid_int(pretty));
    lemma_descriptor_parse_render(s, i7, m.internal);
    lemma_lit_parses(s, i8, cv_ct(pretty));
    lemma_quoted_parses(s, i9, m.client_type);
    lemma_lit_parses(s, i10, close_lit(pretty));
}

#[verifier::rlimit(100)]
proof fn lemma_cv_knit(
    s: Seq<char>,
    m: CaravanModel,
    pretty: bool,
    i1: int,
    i2: int,
    i3: int,
    i4: int,
    i5: int,
    i6: int,
    i7: int,
    i8: int,
    i9: int,
    i10: int,
)
    requires
        s.len() >= 2,
        (s[1] == '\n') == pretty,
        sp_lit(s, 0, cv_open(pretty)) == Some(i1),
        sp_quoted(s, i1) == Some((m.name, i2)),
        sp_lit(s, i2, cv_net(pretty)) == Some(i3),
        sp_network_at(s, i3) == Some((m.network, i4)),
        sp_lit(s, i4, mid_ext(pretty)) == Some(i5),
        sp_descriptor_body(s, i5) == Some((m.external, i6)),
        sp_lit(s, i6, mid_int(pretty)) == Some(i7),
        sp_descriptor_body(s, i7) == Some((m.internal, i8)),
        sp_lit(s, i8, cv_ct(pretty)) == Some(i9),
        sp_quoted(s, i9) == Some((m.client_type, i10)),
        sp_lit(s, i10, close_lit(pretty)) == Some(s.len() as int),
    ensures
        sp_cv_config(s) == Some(m),
{
}

/// The named-configuration round trip: the canonical text of a well-formed
/// configuration, in either form, parses back to exactly that
/// configuration.
pub proof fn lemma_caravan_config_round_trip(m: CaravanModel, pretty: bool)
    requires
        m.wf(),
        m.external.threshold < index_limit(),
        m.internal.threshold < index_limit(),
    ensures
        sp_cv_config(m.render(pretty)) == Some(m),
{
    let s = m.render(pretty);
    let i1 = cv_open(pretty).len() as int;
    let i2 = i1 + esc_render(m.name).len() as int;
    let i3 = i2 + cv_net(pretty).len() as int;
    let i4 = i3 + spec_network_name(m.network).len() as int;
    let i5 = i4 + mid_ext(pretty).len() as int;
    let i6 = i5 + m.external.render().len() as int;
    let i7 = i6 + mid_int(pretty).len() as int;
    let i8 = i7 + m.internal.render().len() as int;
    let i9 = i8 + cv_ct(pretty).len() as int;
    let i10 = i9 + esc_render(m.client_type).len() as int;
    lemma_cv_facts_front(m, pretty);
    lemma_cv_facts_back(m, pretty);
    assert(m.render_front(pretty).len() == i6);
    lemma_cv_knit(s, m, pretty, i1, i2, i3, i4, i5, i6, i7, i8, i9, i10);
}

} // verus!

