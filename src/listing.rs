use vstd::prelude::*;
use crate::links::Config;
use crate::table::Table;
use crate::text::{utf8_len, byte_len};

verus! {

/// `a` sorts before `b`: the order of `String`, character by character,
/// a proper prefix first.
pub open spec fn lex_lt(a: Seq<char>, b: Seq<char>) -> bool
    decreases a.len(),
{
    if a.len() == 0 {
        b.len() > 0
    } else if b.len() == 0 {
        false
    } else if a[0] != b[0] {
        a[0] < b[0]
    } else {
        lex_lt(a.drop_first(), b.drop_first())
    }
}

proof fn lemma_lex_total(a: Seq<char>, b: Seq<char>)
    requires
        a != b,
    ensures
        lex_lt(a, b) || lex_lt(b, a),
    decreases a.len(),
{
    if a.len() > 0 && b.len() > 0 && a[0] == b[0] {
        if a.drop_first() == b.drop_first() {
            assert(a =~= seq![a[0]] + a.drop_first());
            assert(b =~= seq![b[0]] + b.drop_first());
        }
        lemma_lex_total(a.drop_first(), b.drop_first());
    } else if a.len() > 0 && b.len() > 0 {
        assert(a[0] != b[0]);
    } else if a.len() == 0 && b.len() == 0 {
        assert(a =~= b);
    }
}

proof fn lemma_lex_transitive(a: Seq<char>, b: Seq<char>, c: Seq<char>)
    requires
        lex_lt(a, b),
        lex_lt(b, c),
    ensures
        lex_lt(a, c),
    decreases a.len(),
{
    if a.len() > 0 && b.len() > 0 && c.len() > 0 && a[0] == b[0] && b[0] == c[0] {
        lemma_lex_transitive(a.drop_first(), b.drop_first(), c.drop_first());
    }
}

/// Whether `a` sorts before `b`.
fn str_less(a: &str, b: &str) -> (r: bool)
    ensures
        r == lex_lt(a@, b@),
{
    let an = a.unicode_len();
    let bn = b.unicode_len();
    let mut i: usize = 0;
    assert(a@.subrange(0, an as int) =~= a@);
    assert(b@.subrange(0, bn as int) =~= b@);
    while i < an && i < bn && a.get_char(i) == b.get_char(i)
        invariant
            an == a@.len(),
            bn == b@.len(),
            i <= an,
            i <= bn,
            lex_lt(a@, b@) == lex_lt(a@.subrange(i as int, an as int), b@.subrange(i as int, bn as int)),
        decreases an - i,
    {
        proof {
            let x = a@.subrange(i as int, an as int);
            let y = b@.subrange(i as int, bn as int);
            assert(x.drop_first() =~= a@.subrange(i + 1, an as int));
            assert(y.drop_first() =~= b@.subrange(i + 1, bn as int));
        }
        i = i + 1;
    }
    if i == an {
        i < bn
    } else if i == bn {
        false
    } else {
        a.get_char(i) < b.get_char(i)
    }
}

/// Each element sorts before every later one.
pub open spec fn strictly_sorted(ks: Seq<Seq<char>>) -> bool {
    forall|i: int, j: int| 0 <= i < j < ks.len() ==> lex_lt(ks[i], ks[j])
}

/// The keys of `t` in ascending order.
fn sorted_keys(t: &Table) -> (r: Vec<String>)
    requires
        t.wf(),
    ensures
        strictly_sorted(r@.map_values(|k: String| k@)),
        r@.map_values(|k: String| k@).to_set() == t@.dom(),
{
    let keys = t.keys();
    let ghost kv = keys@.map_values(|k: String| k@);
    proof {
        assert forall|i: int, j: int| 0 <= i < j < kv.len() implies kv[i] != kv[j] by {
            assert(kv[i] == keys@[i]@ && kv[j] == keys@[j]@);
        }
    }
    let mut out: Vec<String> = Vec::new();
    let mut i: usize = 0;
    while i < keys.len()
        invariant
            kv == keys@.map_values(|k: String| k@),
            forall|a: int, b: int| 0 <= a < b < kv.len() ==> kv[a] != kv[b],
            i <= keys@.len(),
            strictly_sorted(out@.map_values(|k: String| k@)),
            out@.map_values(|k: String| k@).to_set() == kv.subrange(0, i as int).to_set(),
        decreases keys@.len() - i,
    {
        let key = keys[i].clone();
        let ghost ov = out@.map_values(|k: String| k@);
        proof {
            assert(key@ == kv[i as int]);
            assert forall|j: int| 0 <= j < ov.len() implies ov[j] != key@ by {
                assert(ov.to_set().contains(ov[j]));
                let m = choose|m: int| 0 <= m < i && kv.subrange(0, i as int)[m] == ov[j];
                assert(kv[m] == ov[j]);
            }
        }
        let mut p: usize = 0;
        while p < out.len() && !str_less(key.as_str(), out[p].as_str())
            invariant
                ov == out@.map_values(|k: String| k@),
                p <= out@.len(),
                forall|j: int| 0 <= j < p ==> lex_lt(ov[j], key@),
                forall|j: int| 0 <= j < ov.len() ==> ov[j] != key@,
            decreases out@.len() - p,
        {
            proof {
                lemma_lex_total(key@, ov[p as int]);
            }
            p = p + 1;
        }
        out.insert(p, key);
        proof {
            let nv = out@.map_values(|k: String| k@);
            assert(nv =~= ov.insert(p as int, key@));
            assert forall|a: int, b: int| 0 <= a < b < nv.len() implies lex_lt(nv[a], nv[b]) by {
                if p < ov.len() {
                    assert(lex_lt(key@, ov[p as int]));
                }
                if a < p && b == p {
                } else if a == p && b > p {
                    if b - 1 > p {
                        lemma_lex_transitive(key@, ov[p as int], ov[b - 1]);
                    }
                } else if a < p && b > p {
                    if b - 1 > a {
                    }
                } else {
                }
            }
            assert(kv.subrange(0, i + 1) =~= kv.subrange(0, i as int).push(key@));
            assert(nv.to_set() =~= ov.to_set().insert(key@)) by {
                assert forall|x: Seq<char>| nv.to_set().contains(x) implies ov.to_set().insert(key@).contains(x) by {
                    let m = choose|m: int| 0 <= m < nv.len() && nv[m] == x;
                    if m < p {
                        assert(ov[m] == x);
                    } else if m > p {
                        assert(ov[m - 1] == x);
                    }
                }
                assert forall|x: Seq<char>| ov.to_set().insert(key@).contains(x) implies nv.to_set().contains(x) by {
                    if x == key@ {
                        assert(nv[p as int] == x);
                    } else {
                        let m = choose|m: int| 0 <= m < ov.len() && ov[m] == x;
                        if m < p {
                            assert(nv[m] == x);
                        } else {
                            assert(nv[m + 1] == x);
                        }
                    }
                }
            }
            assert(kv.subrange(0, i as int).push(key@).to_set() =~= kv.subrange(0, i as int).to_set().insert(key@)) by {
                let s = kv.subrange(0, i as int);
                assert forall|x: Seq<char>| s.push(key@).to_set().contains(x) implies s.to_set().insert(key@).contains(x) by {
                    let m = choose|m: int| 0 <= m < s.len() + 1 && s.push(key@)[m] == x;
                    if m < s.len() {
                        assert(s[m] == x);
                    }
                }
                assert forall|x: Seq<char>| s.to_set().insert(key@).contains(x) implies s.push(key@).to_set().contains(x) by {
                    if x == key@ {
                        assert(s.push(key@)[s.len() as int] == x);
                    } else {
                        let m = choose|m: int| 0 <= m < s.len() && s[m] == x;
                        assert(s.push(key@)[m] == x);
                    }
                }
            }
        }
        i = i + 1;
    }
    proof {
        assert(kv.subrange(0, keys@.len() as int) =~= kv);
        assert(kv.to_set() =~= t@.dom()) by {
            assert forall|x: Seq<char>| kv.to_set().contains(x) implies t@.dom().contains(x) by {
                let m = choose|m: int| 0 <= m < kv.len() && kv[m] == x;
                assert(t@.contains_key(keys@[m]@));
            }
            assert forall|x: Seq<char>| t@.dom().contains(x) implies kv.to_set().contains(x) by {
                assert(t@.contains_key(x));
                let m = choose|m: int| 0 <= m < keys@.len() && keys@[m]@ == x;
                assert(kv[m] == x);
            }
        }
    }
    out
}

/// `n` spaces.
pub open spec fn spaces(n: nat) -> Seq<char> {
    Seq::new(n, |i: int| ' ')
}

/// What it takes to pad `n` characters out to `width`.
pub open spec fn padding(width: nat, n: nat) -> nat {
    if width > n {
        (width - n) as nat
    } else {
        0
    }
}

/// The longest key, in UTF-8 bytes.
pub open spec fn widest(ks: Seq<Seq<char>>) -> nat
    decreases ks.len(),
{
    if ks.len() == 0 {
        0
    } else {
        let w = widest(ks.drop_last());
        let l = utf8_len(ks.last());
        if l > w {
            l
        } else {
            w
        }
    }
}

/// One line of the listing: a bullet, the key padded to `width`, a bar and
/// the value.
pub open spec fn row(k: Seq<char>, v: Seq<char>, width: nat) -> Seq<char> {
    "\u{2022} "@ + k + spaces(padding(width, k.len())) + " | "@ + v + "\n"@
}

/// The lines of the listing for the keys `ks`, in that order.
pub open spec fn rows(ks: Seq<Seq<char>>, m: Map<Seq<char>, Seq<char>>, width: nat) -> Seq<char>
    decreases ks.len(),
{
    if ks.len() == 0 {
        Seq::empty()
    } else {
        rows(ks.drop_last(), m, width) + row(ks.last(), m[ks.last()], width)
    }
}

/// A titled section of the listing, or nothing for an empty table.
pub open spec fn section(name: Seq<char>, ks: Seq<Seq<char>>, m: Map<Seq<char>, Seq<char>>) -> Seq<char> {
    if ks.len() == 0 {
        Seq::empty()
    } else {
        name + ":\n\n"@ + rows(ks, m, widest(ks)) + "\n"@
    }
}

fn push_spaces(out: &mut String, n: u128)
    ensures
        final(out)@ == old(out)@ + spaces(n as nat),
{
    let ghost start = out@;
    let mut i: u128 = 0;
    while i < n
        invariant
            i <= n,
            out@ == start + spaces(i as nat),
        decreases n - i,
    {
        proof {
            reveal_strlit(" ");
        }
        out.append(" ");
        proof {
            assert(out@ =~= start + spaces((i + 1) as nat));
        }
        i = i + 1;
    }
}

fn format_section(name: &str, t: &Table) -> (r: String)
    requires
        t.wf(),
    ensures
        exists|ks: Seq<Seq<char>>|
            strictly_sorted(ks) && ks.to_set() == t@.dom() && r@ == section(name@, ks, t@),
{
    let keys = sorted_keys(t);
    let ghost ks = keys@.map_values(|k: String| k@);
    let mut out = String::new();
    if keys.len() == 0 {
        assert(ks.len() == 0);
        return out;
    }
    let mut width: u128 = 0;
    let mut i: usize = 0;
    assert(ks.subrange(0, 0) =~= Seq::<Seq<char>>::empty());
    while i < keys.len()
        invariant
            ks == keys@.map_values(|k: String| k@),
            i <= keys@.len(),
            width == widest(ks.subrange(0, i as int)),
            width <= 4 * usize::MAX,
        decreases keys@.len() - i,
    {
        let _chars = keys[i].as_str().unicode_len();
        let l = byte_len(keys[i].as_str());
        proof {
            assert(ks.subrange(0, i + 1).drop_last() =~= ks.subrange(0, i as int));
            assert(ks[i as int] == keys@[i as int]@);
        }
        if l > width {
            width = l;
        }
        i = i + 1;
    }
    assert(ks.subrange(0, keys@.len() as int) =~= ks);
    out.append(name);
    out.append(":\n\n");
    let ghost head = out@;
    let mut j: usize = 0;
    assert(ks.subrange(0, 0) =~= Seq::<Seq<char>>::empty());
    while j < keys.len()
        invariant
            ks == keys@.map_values(|k: String| k@),
            strictly_sorted(ks),
            ks.to_set() == t@.dom(),
            t.wf(),
            j <= keys@.len(),
            width == widest(ks),
            out@ == head + rows(ks.subrange(0, j as int), t@, width as nat),
        decreases keys@.len() - j,
    {
        let key = keys[j].as_str();
        proof {
            assert(ks[j as int] == key@);
            assert(ks.to_set().contains(key@));
            assert(ks.subrange(0, j + 1).drop_last() =~= ks.subrange(0, j as int));
            assert(ks.subrange(0, j + 1).last() == key@);
        }
        match t.get(key) {
            Some(value) => {
                let n = key.unicode_len();
                let ghost before = out@;
                out.append("\u{2022} ");
                out.append(key);
                let pad: u128 = if width > n as u128 { width - n as u128 } else { 0 };
                push_spaces(&mut out, pad);
                out.append(" | ");
                out.append(value.as_str());
                out.append("\n");
                proof {
                    assert(out@ =~= before + row(key@, t@[key@], width as nat));
                }
            },
            None => {
                assert(false);
            },
        }
        j = j + 1;
    }
    out.append("\n");
    proof {
        assert(ks.subrange(0, keys@.len() as int) =~= ks);
        assert(out@ =~= section(name@, ks, t@));
    }
    out
}

/// The listing of a configuration: its aliases, then its things, each
/// section sorted by key, an empty table leaving its section out.
pub fn format_config(config: &Config) -> (r: String)
    requires
        config.wf(),
    ensures
        exists|ka: Seq<Seq<char>>, kt: Seq<Seq<char>>|
            strictly_sorted(ka) && ka.to_set() == config.aliases@.dom() && strictly_sorted(kt)
                && kt.to_set() == config.things@.dom() && r@ == section("aliases"@, ka, config.aliases@)
                + section("things"@, kt, config.things@),
{
    let mut out = format_section("aliases", &config.aliases);
    let things = format_section("things", &config.things);
    out.append(things.as_str());
    out
}

} // verus!
